//! Cards, the deck they come from, and the hands they make.

use vstd::prelude::*;
use self::card::Card;

pub mod suit;
pub mod rank;
pub mod card;
pub mod deck;
pub mod hand;
pub mod comparator;
pub mod evaluation;
pub mod classifier;
pub mod showdown;

verus! {

/// Whether each card of a row equals the one that follows it.
pub open spec fn all_same_spec(arr: Seq<Card>) -> bool {
    forall|i: int| 0 <= i && i + 1 < arr.len() ==> #[trigger] arr[i] == arr[i + 1]
}

/// Checks if all the cards of a row are the same card: each equals the one
/// that follows it. A row of no card or of one card is all the same.
pub fn is_all_same(arr: &[Card]) -> (same: bool)
    ensures
        same == all_same_spec(arr@),
        same == (forall|i: int, j: int|
            0 <= i < arr@.len() && 0 <= j < arr@.len() ==> #[trigger] arr@[i] == #[trigger] arr@[j]),
{
    let mut i: usize = 1;
    while i < arr.len()
        invariant
            1 <= i,
            forall|k: int| 0 <= k < i && k < arr@.len() ==> #[trigger] arr@[k] == arr@[0],
        decreases arr@.len() - i,
    {
        if arr[i - 1] != arr[i] {
            return false;
        }
        i += 1;
    }
    true
}

} // verus!
