//! In poker, the core part, or at least one of the main parts, is what hand you
//! have: it determines who wins and who loses.
//!
//! This module holds the ten categories of hands, from the royal flush down to
//! the high card, and the value that a classified hand carries: its category
//! and the key that breaks ties within the category.

use vstd::prelude::*;
use core::cmp::Ordering;
use super::card::Card;
use super::classifier::classify;
use super::classifier::classify_spec;
use super::rank::Rank;

verus! {

/// The category of a hand of cards in a game of poker, strongest first.
#[derive(Debug, Clone, Copy, Eq, Hash)]
pub enum Hand {
    /// A Royal Flush is a straight flush with the highest cards.
    RoyalFlush,
    /// A Straight Flush is a flush with cards in a sequence.
    StraightFlush,
    /// A Four of a Kind is four cards of the same rank.
    FourOfAKind,
    /// A Full House is three cards of the same rank and two cards of the same rank.
    FullHouse,
    /// A Flush is five cards of the same suit.
    Flush,
    /// A Straight is five cards in a sequence.
    Straight,
    /// A Three of a Kind is three cards of the same rank.
    ThreeOfAKind,
    /// A Two Pair is two cards of the same rank and two cards of the same rank.
    TwoPair,
    /// A One Pair is two cards of the same rank.
    OnePair,
    /// A High Card is a hand that does not fit into any of the other categories.
    HighCard,
}

impl PartialEq for Hand {
    /// Checks if two hands are of the same category.
    fn eq(&self, other: &Hand) -> (same: bool) {
        match self {
            Hand::RoyalFlush => matches!(other, Hand::RoyalFlush),
            Hand::StraightFlush => matches!(other, Hand::StraightFlush),
            Hand::FourOfAKind => matches!(other, Hand::FourOfAKind),
            Hand::FullHouse => matches!(other, Hand::FullHouse),
            Hand::Flush => matches!(other, Hand::Flush),
            Hand::Straight => matches!(other, Hand::Straight),
            Hand::ThreeOfAKind => matches!(other, Hand::ThreeOfAKind),
            Hand::TwoPair => matches!(other, Hand::TwoPair),
            Hand::OnePair => matches!(other, Hand::OnePair),
            Hand::HighCard => matches!(other, Hand::HighCard),
        }
    }
}

impl vstd::std_specs::cmp::PartialEqSpecImpl for Hand {
    open spec fn obeys_eq_spec() -> bool {
        true
    }

    open spec fn eq_spec(&self, other: &Hand) -> bool {
        *self == *other
    }
}

impl PartialOrd for Hand {
    /// Orders two categories by their strength: the royal flush is the
    /// greatest, the high card the least.
    fn partial_cmp(&self, other: &Hand) -> (order: Option<Ordering>) {
        let a: u8 = self.strength();
        let b: u8 = other.strength();
        if a < b {
            Some(Ordering::Less)
        } else if a > b {
            Some(Ordering::Greater)
        } else {
            Some(Ordering::Equal)
        }
    }
}

impl vstd::std_specs::cmp::PartialOrdSpecImpl for Hand {
    open spec fn obeys_partial_cmp_spec() -> bool {
        true
    }

    open spec fn partial_cmp_spec(&self, other: &Hand) -> Option<Ordering> {
        if self.strength_spec() < other.strength_spec() {
            Some(Ordering::Less)
        } else if self.strength_spec() > other.strength_spec() {
            Some(Ordering::Greater)
        } else {
            Some(Ordering::Equal)
        }
    }
}

impl Default for Hand {
    /// Creates a new hand: the weakest category, which every hand reaches.
    fn default() -> (hand: Hand)
        ensures
            hand == Hand::HighCard,
    {
        Hand::new()
    }
}

impl Hand {
    /// The strength of a category: 0 for the high card, up to 9 for the royal
    /// flush. A stronger category beats a weaker one whatever the cards.
    pub open spec fn strength_spec(self) -> int {
        match self {
            Hand::RoyalFlush => 9,
            Hand::StraightFlush => 8,
            Hand::FourOfAKind => 7,
            Hand::FullHouse => 6,
            Hand::Flush => 5,
            Hand::Straight => 4,
            Hand::ThreeOfAKind => 3,
            Hand::TwoPair => 2,
            Hand::OnePair => 1,
            Hand::HighCard => 0,
        }
    }

    /// The name of a category, as a sequence of characters.
    pub open spec fn name_spec(self) -> Seq<char> {
        match self {
            Hand::RoyalFlush => "Royal Flush"@,
            Hand::StraightFlush => "Straight Flush"@,
            Hand::FourOfAKind => "Four of a Kind"@,
            Hand::FullHouse => "Full House"@,
            Hand::Flush => "Flush"@,
            Hand::Straight => "Straight"@,
            Hand::ThreeOfAKind => "Three of a Kind"@,
            Hand::TwoPair => "Two Pair"@,
            Hand::OnePair => "One Pair"@,
            Hand::HighCard => "High Card"@,
        }
    }

    /// Creates a new hand.
    pub fn new() -> (hand: Hand)
        ensures
            hand == Hand::HighCard,
    {
        Hand::HighCard
    }

    /// Returns the name of the hand.
    pub fn name(&self) -> (name: &'static str)
        ensures
            name@ == self.name_spec(),
    {
        match self {
            Hand::RoyalFlush => "Royal Flush",
            Hand::StraightFlush => "Straight Flush",
            Hand::FourOfAKind => "Four of a Kind",
            Hand::FullHouse => "Full House",
            Hand::Flush => "Flush",
            Hand::Straight => "Straight",
            Hand::ThreeOfAKind => "Three of a Kind",
            Hand::TwoPair => "Two Pair",
            Hand::OnePair => "One Pair",
            Hand::HighCard => "High Card",
        }
    }

    /// The strength of the category, from 0 for the high card to 9 for the
    /// royal flush.
    pub fn strength(&self) -> (s: u8)
        ensures
            s == self.strength_spec(),
            s <= 9,
    {
        match self {
            Hand::RoyalFlush => 9,
            Hand::StraightFlush => 8,
            Hand::FourOfAKind => 7,
            Hand::FullHouse => 6,
            Hand::Flush => 5,
            Hand::Straight => 4,
            Hand::ThreeOfAKind => 3,
            Hand::TwoPair => 2,
            Hand::OnePair => 1,
            Hand::HighCard => 0,
        }
    }

    /// Checks if the given cards make a Royal Flush: whether they can be
    /// classified and the best hand of five among them is the ace, king,
    /// queen, jack and ten of one suit. The receiver plays no part.
    pub fn is_royal_flush(&self, cards: Vec<Card>) -> (yes: bool)
        ensures
            yes == match classify_spec(cards@) {
                Ok(value) => value.category == Hand::RoyalFlush,
                Err(_) => false,
            },
    {
        match classify(&cards) {
            Ok(hand) => hand.category == Hand::RoyalFlush,
            Err(_) => false,
        }
    }

    /// Checks if the hand is a Straight Flush.
    pub fn is_straight_flush(&self) -> (yes: bool)
        ensures
            yes == (*self == Hand::StraightFlush),
    {
        self == &Hand::StraightFlush
    }

    /// Checks if the hand is a Four of a Kind.
    pub fn is_four_of_a_kind(&self) -> (yes: bool)
        ensures
            yes == (*self == Hand::FourOfAKind),
    {
        self == &Hand::FourOfAKind
    }

    /// Checks if the hand is a Full House.
    pub fn is_full_house(&self) -> (yes: bool)
        ensures
            yes == (*self == Hand::FullHouse),
    {
        self == &Hand::FullHouse
    }

    /// Checks if the hand is a Flush.
    pub fn is_flush(&self) -> (yes: bool)
        ensures
            yes == (*self == Hand::Flush),
    {
        self == &Hand::Flush
    }

    /// Checks if the hand is a Straight.
    pub fn is_straight(&self) -> (yes: bool)
        ensures
            yes == (*self == Hand::Straight),
    {
        self == &Hand::Straight
    }

    /// Checks if the hand is a Three of a Kind.
    pub fn is_three_of_a_kind(&self) -> (yes: bool)
        ensures
            yes == (*self == Hand::ThreeOfAKind),
    {
        self == &Hand::ThreeOfAKind
    }

    /// Checks if the hand is a Two Pair.
    pub fn is_two_pair(&self) -> (yes: bool)
        ensures
            yes == (*self == Hand::TwoPair),
    {
        self == &Hand::TwoPair
    }

    /// Checks if the hand is a One Pair.
    pub fn is_one_pair(&self) -> (yes: bool)
        ensures
            yes == (*self == Hand::OnePair),
    {
        self == &Hand::OnePair
    }

    /// Checks if the hand is a High Card.
    pub fn is_high_card(&self) -> (yes: bool)
        ensures
            yes == (*self == Hand::HighCard),
    {
        self == &Hand::HighCard
    }
}

/// Two categories of one strength are one category.
pub proof fn lemma_strength_injective(a: Hand, b: Hand)
    ensures
        0 <= a.strength_spec() <= 9,
        a.strength_spec() == b.strength_spec() <==> a == b,
{
}

/// What a classified hand is worth: its category, and the ranks that break a
/// tie between two hands of that category, the most significant first.
pub struct HandValue {
    pub category: Hand,
    pub key: Seq<Rank>,
}

/// A classified hand: the category of the best five cards, and the tie-break
/// key computed with it.
#[derive(Debug, Clone, PartialEq, Eq)]
pub struct ClassifiedHand {
    /// The category of the hand.
    pub category: Hand,
    /// The ranks that break ties within the category, the most significant
    /// first.
    pub key: Vec<Rank>,
}

impl View for ClassifiedHand {
    type V = HandValue;

    open spec fn view(&self) -> HandValue {
        HandValue { category: self.category, key: self.key@ }
    }
}

/// Why a collection of cards could not be classified.
#[derive(Debug, Clone, Copy, PartialEq, Eq, Structural, Hash)]
pub enum HandError {
    /// Fewer than five cards were given, or one card was given twice.
    InvalidHand,
}

} // verus!
