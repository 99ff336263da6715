//! A card in the game of poker. This is of course excluding the jokers and the wild cards.
//!
//! Cards have a suit and a rank. The suit is one of the four suits in a deck of cards. The rank
//! is one of the 13 ranks in a deck of cards. The rank is also used to determine the value of the
//! card.

use vstd::prelude::*;
use super::deck::Deck;
use super::deck::deck_spec;
use super::rank::Rank;
use super::suit::Suit;

verus! {

/// A card in the game of poker.
#[derive(Debug, PartialEq, Eq, Structural, Clone, Copy, Hash)]
pub struct Card {
    /// The suit of the card.
    pub suit: Suit,
    /// The rank of the card.
    pub rank: Rank,
}

impl Card {
    /// Creates a new card.
    pub fn new(suit: Suit, rank: Rank) -> (card: Self)
        ensures
            card == (Card { suit, rank }),
    {
        Self { suit, rank }
    }

    /// Return a vector of all the cards in a deck of cards.
    pub fn all() -> (cards: Vec<Card>)
        ensures
            cards@ == deck_spec(),
    {
        let deck = Deck::new();
        deck.cards
    }

    /// The suit of the card.
    pub fn get_suit(&self) -> (suit: Suit)
        ensures
            suit == self.suit,
    {
        self.suit
    }

    /// The rank of the card.
    pub fn get_rank(&self) -> (rank: Rank)
        ensures
            rank == self.rank,
    {
        self.rank
    }
}

} // verus!
