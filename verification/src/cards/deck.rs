//! The canonical deck: fifty-two cards, every suit with every rank, in one
//! fixed order. Shuffling is left to the caller.

use vstd::prelude::*;
use super::card::Card;
use super::rank::Rank;
use super::suit::Suit;

verus! {

/// The number of cards in a deck.
pub const DECK_SIZE: usize = 52;

/// The canonical deck: suit by suit, and within a suit rank by rank from the
/// two up to the ace.
pub open spec fn deck_spec() -> Seq<Card> {
    Seq::new(52, |i: int| Card { suit: Suit::all_spec()[i / 13], rank: Rank::all_spec()[i % 13] })
}

/// The place of a card in the canonical deck.
pub open spec fn deck_index(card: Card) -> int {
    card.suit.index_spec() * 13 + (card.rank.value_spec() - 2)
}

/// A deck of cards.
pub struct Deck {
    /// The cards in the deck.
    pub cards: Vec<Card>,
}

impl Deck {
    /// Creates a new deck of cards: the canonical fifty-two, unshuffled.
    pub fn new() -> (deck: Self)
        ensures
            deck.cards@ == deck_spec(),
    {
        Self { cards: Deck::produce() }
    }

    /// Produces the fifty-two cards of the canonical deck, suit by suit and
    /// rank by rank. Every call gives the same sequence.
    pub fn produce() -> (cards: Vec<Card>)
        ensures
            cards@ == deck_spec(),
    {
        let mut cards: Vec<Card> = Vec::new();
        let ranks = Rank::all();
        let suits = Suit::all();
        let mut s: usize = 0;
        while s < 4
            invariant
                s <= 4,
                ranks@ == Rank::all_spec(),
                suits@ == Suit::all_spec(),
                cards@.len() == s * 13,
                forall|k: int| 0 <= k < cards@.len() ==> cards@[k] == deck_spec()[k],
            decreases 4 - s,
        {
            let mut r: usize = 0;
            while r < 13
                invariant
                    s < 4,
                    r <= 13,
                    ranks@ == Rank::all_spec(),
                    suits@ == Suit::all_spec(),
                    cards@.len() == s * 13 + r,
                    forall|k: int| 0 <= k < cards@.len() ==> cards@[k] == deck_spec()[k],
                decreases 13 - r,
            {
                cards.push(Card::new(suits[s], ranks[r]));
                r += 1;
            }
            s += 1;
        }
        assert(cards@ =~= deck_spec());
        cards
    }
}

/// The deck holds fifty-two cards, no card twice, and every card there is:
/// each stands at its own place.
pub proof fn lemma_deck_complete()
    ensures
        deck_spec().len() == 52,
        deck_spec().no_duplicates(),
        forall|c: Card| 0 <= #[trigger] deck_index(c) < 52 && deck_spec()[deck_index(c)] == c,
{
    assert forall|c: Card| 0 <= #[trigger] deck_index(c) < 52 && deck_spec()[deck_index(c)]
        == c by {
        let i = deck_index(c);
        assert(i / 13 == c.suit.index_spec());
        assert(i % 13 == c.rank.value_spec() - 2);
    }
    assert forall|i: int, j: int|
        0 <= i < 52 && 0 <= j < 52 && i != j implies deck_spec()[i] != deck_spec()[j] by {
        let a = deck_spec()[i];
        let b = deck_spec()[j];
        assert(a.suit.index_spec() == i / 13);
        assert(b.suit.index_spec() == j / 13);
        assert(a.rank.value_spec() - 2 == i % 13);
        assert(b.rank.value_spec() - 2 == j % 13);
    }
}

} // verus!
