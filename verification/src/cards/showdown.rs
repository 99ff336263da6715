//! The showdown: who wins among the classified hands of the players.
//!
//! A hand wins where no other hand beats it. Hands that tie at the top all
//! win: a tie is reported as a tie, and how the pot is split is the caller's
//! concern.

use vstd::prelude::*;
use super::comparator::at_most;
use super::comparator::beats;
use super::comparator::lemma_at_most_reflexive;
use super::comparator::lemma_at_most_total;
use super::comparator::lemma_at_most_transitive;
use super::hand::ClassifiedHand;
use super::hand::HandValue;

verus! {

/// What the hand of player `i` is worth.
pub open spec fn worth(hands: Seq<ClassifiedHand>, i: int) -> HandValue {
    hands[i]@
}

/// Whether player `i` wins: no hand at the table beats theirs.
pub open spec fn is_winner(hands: Seq<ClassifiedHand>, i: int) -> bool {
    &&& 0 <= i < hands.len()
    &&& forall|j: int| 0 <= j < hands.len() ==> at_most(#[trigger] worth(hands, j), worth(hands, i))
}

/// The players who win the showdown, by their places at the table in
/// ascending order: every player whose hand no other beats, and nobody else.
/// With no hands there are no winners; otherwise there is at least one.
pub fn winners(hands: &Vec<ClassifiedHand>) -> (best: Vec<usize>)
    ensures
        forall|a: int, b: int| 0 <= a < b < best@.len() ==> best@[a] < best@[b],
        forall|k: int| 0 <= k < best@.len() ==> is_winner(hands@, #[trigger] best@[k] as int),
        forall|i: int| is_winner(hands@, i) ==> exists|k: int| 0 <= k < best@.len() && best@[k] == i,
        hands@.len() > 0 ==> best@.len() > 0,
{
    let mut best: Vec<usize> = Vec::new();
    if hands.len() == 0 {
        return best;
    }
    best.push(0);
    let mut top: usize = 0;
    let mut i: usize = 1;
    proof {
        lemma_at_most_reflexive(worth(hands@, 0));
        assert(best@[0] == 0);
    }
    while i < hands.len()
        invariant
            1 <= i <= hands@.len(),
            top < i,
            best@.len() > 0,
            forall|j: int| 0 <= j < i ==> at_most(#[trigger] worth(hands@, j), worth(hands@, top as int)),
            forall|a: int, b: int| 0 <= a < b < best@.len() ==> best@[a] < best@[b],
            forall|k: int|
                0 <= k < best@.len() ==> (#[trigger] best@[k]) < i && at_most(
                    worth(hands@, top as int),
                    worth(hands@, best@[k] as int),
                ),
            forall|j: int|
                0 <= j < i && at_most(worth(hands@, top as int), #[trigger] worth(hands@, j))
                    ==> exists|k: int| 0 <= k < best@.len() && best@[k] == j,
        decreases hands@.len() - i,
    {
        let ghost old_top = top as int;
        let ghost old_best = best@;
        let ghost here = worth(hands@, i as int);
        let ghost lead = worth(hands@, old_top);
        proof {
            lemma_at_most_total(here, lead);
            lemma_at_most_reflexive(here);
        }
        if beats(&hands[i], &hands[top]) {
            best = Vec::new();
            best.push(i);
            top = i;
            proof {
                assert(best@[0] == i);
                assert forall|j: int| 0 <= j < i + 1 implies at_most(
                    #[trigger] worth(hands@, j),
                    here,
                ) by {
                    if j < i {
                        lemma_at_most_transitive(worth(hands@, j), lead, here);
                    }
                }
                assert forall|j: int|
                    0 <= j < i + 1 && at_most(here, #[trigger] worth(hands@, j)) implies exists|
                    k: int,
                | 0 <= k < best@.len() && best@[k] == j by {
                    if j < i {
                        lemma_at_most_transitive(here, worth(hands@, j), lead);
                    }
                    assert(best@[0] == j);
                }
            }
        } else if !beats(&hands[top], &hands[i]) {
            best.push(i);
            proof {
                assert(best@[old_best.len() as int] == i);
                assert forall|j: int|
                    0 <= j < i + 1 && at_most(lead, #[trigger] worth(hands@, j)) implies exists|
                    k: int,
                | 0 <= k < best@.len() && best@[k] == j by {
                    if j < i {
                        let k = choose|k: int| 0 <= k < old_best.len() && old_best[k] == j;
                        assert(best@[k] == j);
                    } else {
                        assert(best@[old_best.len() as int] == j);
                    }
                }
            }
        }
        i += 1;
    }
    proof {
        let lead = worth(hands@, top as int);
        assert forall|k: int| 0 <= k < best@.len() implies is_winner(
            hands@,
            #[trigger] best@[k] as int,
        ) by {
            let w = worth(hands@, best@[k] as int);
            assert forall|j: int| 0 <= j < hands@.len() implies at_most(
                #[trigger] worth(hands@, j),
                w,
            ) by {
                lemma_at_most_transitive(worth(hands@, j), lead, w);
            }
        }
        assert forall|i: int| is_winner(hands@, i) implies exists|k: int|
            0 <= k < best@.len() && best@[k] == i by {
            assert(at_most(worth(hands@, top as int), worth(hands@, i)));
        }
    }
    best
}

} // verus!
