//! The rank of a card, which is used to determine the value of the card.
//!
//! Ranks run from two up to the ace, which is high. Only the detection of a
//! straight lets the ace also stand below the two.

use vstd::prelude::*;
use core::cmp::Ordering;

verus! {

/// The rank of a card, from the lowest to the highest.
#[derive(Debug, PartialEq, Eq, Structural, Ord, Clone, Copy, Hash)]
pub enum Rank {
    Two,
    Three,
    Four,
    Five,
    Six,
    Seven,
    Eight,
    Nine,
    Ten,
    /// The rank of jack, which is the fourth highest rank in a deck of cards.
    Jack,
    /// The rank of queen, which is the third highest rank in a deck of cards.
    Queen,
    /// The rank of king, which is the second highest rank in a deck of cards.
    King,
    /// The rank of ace, which is the highest rank in a deck of cards.
    Ace,
}

impl PartialOrd for Rank {
    /// Orders two ranks by their values: the ace is the highest.
    fn partial_cmp(&self, other: &Rank) -> (order: Option<Ordering>) {
        let a: u8 = self.value();
        let b: u8 = other.value();
        if a < b {
            Some(Ordering::Less)
        } else if a > b {
            Some(Ordering::Greater)
        } else {
            Some(Ordering::Equal)
        }
    }
}

impl vstd::std_specs::cmp::PartialOrdSpecImpl for Rank {
    open spec fn obeys_partial_cmp_spec() -> bool {
        true
    }

    open spec fn partial_cmp_spec(&self, other: &Rank) -> Option<Ordering> {
        if self.value_spec() < other.value_spec() {
            Some(Ordering::Less)
        } else if self.value_spec() > other.value_spec() {
            Some(Ordering::Greater)
        } else {
            Some(Ordering::Equal)
        }
    }
}

/// The value at which the ace stands when it plays low, below the two.
pub const LOW_ACE_VALUE: u8 = 1;

impl Rank {
    /// The value of a rank: 2 for the two, up to 14 for the ace.
    pub open spec fn value_spec(self) -> int {
        match self {
            Rank::Two => 2,
            Rank::Three => 3,
            Rank::Four => 4,
            Rank::Five => 5,
            Rank::Six => 6,
            Rank::Seven => 7,
            Rank::Eight => 8,
            Rank::Nine => 9,
            Rank::Ten => 10,
            Rank::Jack => 11,
            Rank::Queen => 12,
            Rank::King => 13,
            Rank::Ace => 14,
        }
    }

    /// The rank of a given value; values outside 2..=14 have none and are
    /// sent to the ace.
    pub open spec fn of_value(v: int) -> Rank {
        if v == 2 {
            Rank::Two
        } else if v == 3 {
            Rank::Three
        } else if v == 4 {
            Rank::Four
        } else if v == 5 {
            Rank::Five
        } else if v == 6 {
            Rank::Six
        } else if v == 7 {
            Rank::Seven
        } else if v == 8 {
            Rank::Eight
        } else if v == 9 {
            Rank::Nine
        } else if v == 10 {
            Rank::Ten
        } else if v == 11 {
            Rank::Jack
        } else if v == 12 {
            Rank::Queen
        } else if v == 13 {
            Rank::King
        } else {
            Rank::Ace
        }
    }

    /// The value of a rank when the ace plays low: 1 for the ace, and for
    /// every other rank its value.
    pub open spec fn low_value_spec(self) -> int {
        if self == Rank::Ace {
            1
        } else {
            self.value_spec()
        }
    }

    /// The thirteen ranks in ascending order.
    pub open spec fn all_spec() -> Seq<Rank> {
        Seq::new(13, |i: int| Rank::of_value(i + 2))
    }

    /// The place of a rank in the circle on which ranks are added: the king
    /// at 0, then downwards rank by rank to the two at 11, and the ace at 12.
    pub open spec fn place_spec(self) -> int {
        match self {
            Rank::King => 0,
            Rank::Queen => 1,
            Rank::Jack => 2,
            Rank::Ten => 3,
            Rank::Nine => 4,
            Rank::Eight => 5,
            Rank::Seven => 6,
            Rank::Six => 7,
            Rank::Five => 8,
            Rank::Four => 9,
            Rank::Three => 10,
            Rank::Two => 11,
            Rank::Ace => 12,
        }
    }

    /// The rank at a place of the circle; places outside 0..=12 have none and
    /// are sent to the ace.
    pub open spec fn at_place(p: int) -> Rank {
        if p == 0 {
            Rank::King
        } else if p == 1 {
            Rank::Queen
        } else if p == 2 {
            Rank::Jack
        } else if p == 3 {
            Rank::Ten
        } else if p == 4 {
            Rank::Nine
        } else if p == 5 {
            Rank::Eight
        } else if p == 6 {
            Rank::Seven
        } else if p == 7 {
            Rank::Six
        } else if p == 8 {
            Rank::Five
        } else if p == 9 {
            Rank::Four
        } else if p == 10 {
            Rank::Three
        } else if p == 11 {
            Rank::Two
        } else {
            Rank::Ace
        }
    }

    /// The sum of two ranks: the rank whose place is the sum of their places,
    /// taken round the circle of thirteen.
    pub open spec fn add_spec(self, other: Rank) -> Rank {
        Rank::at_place((self.place_spec() + other.place_spec()) % 13)
    }

    /// The value of the rank, with the ace high.
    pub fn value(self) -> (v: u8)
        ensures
            v == self.value_spec(),
            2 <= v <= 14,
    {
        match self {
            Rank::Two => 2,
            Rank::Three => 3,
            Rank::Four => 4,
            Rank::Five => 5,
            Rank::Six => 6,
            Rank::Seven => 7,
            Rank::Eight => 8,
            Rank::Nine => 9,
            Rank::Ten => 10,
            Rank::Jack => 11,
            Rank::Queen => 12,
            Rank::King => 13,
            Rank::Ace => 14,
        }
    }

    /// The rank that has the given value, if there is one.
    pub fn from_value(v: u8) -> (r: Option<Rank>)
        ensures
            r.is_some() <==> 2 <= v <= 14,
            r.is_some() ==> r.unwrap() == Rank::of_value(v as int) && r.unwrap().value_spec() == v,
    {
        match v {
            2 => Some(Rank::Two),
            3 => Some(Rank::Three),
            4 => Some(Rank::Four),
            5 => Some(Rank::Five),
            6 => Some(Rank::Six),
            7 => Some(Rank::Seven),
            8 => Some(Rank::Eight),
            9 => Some(Rank::Nine),
            10 => Some(Rank::Ten),
            11 => Some(Rank::Jack),
            12 => Some(Rank::Queen),
            13 => Some(Rank::King),
            14 => Some(Rank::Ace),
            _ => None,
        }
    }

    /// The value of the rank when the ace plays low: 1 for the ace, the
    /// ordinary value for every other rank. Only straights count this way.
    pub fn low_value(self) -> (v: u8)
        ensures
            v == self.low_value_spec(),
    {
        match self {
            Rank::Ace => LOW_ACE_VALUE,
            _ => self.value(),
        }
    }

    /// Returns a vector of all the ranks in a deck of cards, lowest first.
    pub fn all() -> (ranks: Vec<Rank>)
        ensures
            ranks@ == Rank::all_spec(),
    {
        let mut ranks: Vec<Rank> = Vec::new();
        ranks.push(Rank::Two);
        ranks.push(Rank::Three);
        ranks.push(Rank::Four);
        ranks.push(Rank::Five);
        ranks.push(Rank::Six);
        ranks.push(Rank::Seven);
        ranks.push(Rank::Eight);
        ranks.push(Rank::Nine);
        ranks.push(Rank::Ten);
        ranks.push(Rank::Jack);
        ranks.push(Rank::Queen);
        ranks.push(Rank::King);
        ranks.push(Rank::Ace);
        assert(ranks@ =~= Rank::all_spec());
        ranks
    }

    /// The place of the rank in the circle on which ranks are added: 0 for
    /// the king, then downwards to 11 for the two, and 12 for the ace.
    pub fn place(self) -> (p: u8)
        ensures
            p == self.place_spec(),
            p <= 12,
    {
        match self {
            Rank::King => 0,
            Rank::Queen => 1,
            Rank::Jack => 2,
            Rank::Ten => 3,
            Rank::Nine => 4,
            Rank::Eight => 5,
            Rank::Seven => 6,
            Rank::Six => 7,
            Rank::Five => 8,
            Rank::Four => 9,
            Rank::Three => 10,
            Rank::Two => 11,
            Rank::Ace => 12,
        }
    }

    /// The rank that stands at the given place of the circle, if there is
    /// one.
    pub fn from_place(p: u8) -> (r: Option<Rank>)
        ensures
            r.is_some() <==> p <= 12,
            r.is_some() ==> r.unwrap() == Rank::at_place(p as int) && r.unwrap().place_spec() == p,
    {
        match p {
            0 => Some(Rank::King),
            1 => Some(Rank::Queen),
            2 => Some(Rank::Jack),
            3 => Some(Rank::Ten),
            4 => Some(Rank::Nine),
            5 => Some(Rank::Eight),
            6 => Some(Rank::Seven),
            7 => Some(Rank::Six),
            8 => Some(Rank::Five),
            9 => Some(Rank::Four),
            10 => Some(Rank::Three),
            11 => Some(Rank::Two),
            12 => Some(Rank::Ace),
            _ => None,
        }
    }

    /// Adds two ranks by their places in the circle: the king at 0, the
    /// queen at 1, down to the two at 11, and the ace at 12. The sum is the
    /// rank at the sum of the two places, wrapping round at thirteen, so the
    /// king added to a rank leaves the rank. The sum of two ranks is always a
    /// rank.
    pub fn add(self, other: Rank) -> (sum: Option<Rank>)
        ensures
            sum.is_some(),
            sum.unwrap().place_spec() == (self.place_spec() + other.place_spec()) % 13,
            sum == Some(self.add_spec(other)),
    {
        let mut place: u8 = self.place() + other.place();
        if place > 12 {
            place -= 13;
        }
        Rank::from_place(place)
    }
}

/// A rank is found again from its value, and the values are the whole range
/// from 2 to 14.
pub proof fn lemma_rank_value_roundtrip(r: Rank, v: int)
    ensures
        2 <= r.value_spec() <= 14,
        Rank::of_value(r.value_spec()) == r,
        2 <= v <= 14 ==> Rank::of_value(v).value_spec() == v,
{
}

/// Two ranks of one value are one rank: the order by value is total and
/// strict on distinct ranks.
pub proof fn lemma_rank_value_injective(a: Rank, b: Rank)
    ensures
        a.value_spec() == b.value_spec() <==> a == b,
{
}

/// A rank is found again from its place in the circle of addition, and the
/// places are the whole range from 0 to 12.
pub proof fn lemma_rank_place_roundtrip(r: Rank, p: int)
    ensures
        0 <= r.place_spec() <= 12,
        Rank::at_place(r.place_spec()) == r,
        0 <= p <= 12 ==> Rank::at_place(p).place_spec() == p,
{
}

/// Adding ranks is commutative, and the king is its identity.
pub proof fn lemma_rank_add(a: Rank, b: Rank)
    ensures
        a.add_spec(b) == b.add_spec(a),
        a.add_spec(b).place_spec() == (a.place_spec() + b.place_spec()) % 13,
        Rank::King.add_spec(a) == a,
        a.add_spec(Rank::King) == a,
{
}

} // verus!
