//! The suit of a card. Suits carry no order: they only tell cards apart and
//! decide whether a hand is a flush.

use vstd::prelude::*;

verus! {

/// The suit of a card.
#[derive(Debug, PartialEq, Eq, Structural, Clone, Copy, Hash)]
pub enum Suit {
    /// The suit of clubs.
    Clubs,
    /// The suit of diamonds.
    Diamonds,
    /// The suit of hearts.
    Hearts,
    /// The suit of spades.
    Spades,
}

impl Suit {
    /// The four suits, in the order in which a deck lays them out.
    pub open spec fn all_spec() -> Seq<Suit> {
        seq![Suit::Clubs, Suit::Diamonds, Suit::Hearts, Suit::Spades]
    }

    /// The place of a suit in [`Suit::all_spec`].
    pub open spec fn index_spec(self) -> int {
        match self {
            Suit::Clubs => 0,
            Suit::Diamonds => 1,
            Suit::Hearts => 2,
            Suit::Spades => 3,
        }
    }

    /// Returns all the suits in a deck of cards.
    pub fn all() -> (suits: Vec<Suit>)
        ensures
            suits@ == Suit::all_spec(),
    {
        let mut suits: Vec<Suit> = Vec::new();
        suits.push(Suit::Clubs);
        suits.push(Suit::Diamonds);
        suits.push(Suit::Hearts);
        suits.push(Suit::Spades);
        assert(suits@ =~= Suit::all_spec());
        suits
    }
}

/// Every suit stands in the enumeration, at its own index.
pub proof fn lemma_suit_enumeration(s: Suit)
    ensures
        0 <= s.index_spec() < 4,
        Suit::all_spec().len() == 4,
        Suit::all_spec()[s.index_spec()] == s,
{
}

} // verus!
