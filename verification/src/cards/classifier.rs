//! The classifier: from a dealt collection of cards to the best hand in it.
//!
//! A collection can be classified when it holds at least five cards and no
//! card twice. Its worth is that of the best hand of five that can be taken
//! from it. The order of the cards plays no part.

use vstd::prelude::*;
use core::cmp::Ordering;
use super::card::Card;
use super::comparator::at_most;
use super::comparator::better_of;
use super::comparator::compare_spec;
use super::comparator::lemma_at_most_antisymmetric;
use super::comparator::lemma_at_most_reflexive;
use super::comparator::lemma_at_most_transitive;
use super::comparator::lemma_compare_reflexive;
use super::evaluation::classify_five;
use super::evaluation::five;
use super::evaluation::hand_value;
use super::evaluation::is_flush;
use super::evaluation::is_straight;
use super::evaluation::rank_count;
use super::evaluation::ranks_with_count;
use super::evaluation::run_from;
use super::hand::ClassifiedHand;
use super::hand::HandError;
use super::hand::HandValue;
use super::rank::Rank;

verus! {

/// The fewest cards that can be classified, and the size of a hand.
pub const HAND_SIZE: usize = 5;

/// Whether a collection can be classified: at least five cards, none twice.
pub open spec fn valid_cards(cards: Seq<Card>) -> bool {
    cards.len() >= 5 && cards.no_duplicates()
}

/// Whether `h` is a hand of five cards taken from `pool`.
pub open spec fn five_of(pool: Set<Card>, h: Set<Card>) -> bool {
    h.finite() && h.len() == 5 && h.subset_of(pool)
}

/// Whether `v` is the worth of the best hand of five in `pool`: some hand of
/// five from the pool is worth `v`, and none beats it.
pub open spec fn is_best_of(pool: Set<Card>, v: HandValue) -> bool {
    &&& exists|h: Set<Card>| five_of(pool, h) && #[trigger] hand_value(h) == v
    &&& forall|h: Set<Card>| five_of(pool, h) ==> at_most(#[trigger] hand_value(h), v)
}

/// The worth of the best hand of five in `pool`.
pub open spec fn best_value(pool: Set<Card>) -> HandValue {
    choose|v: HandValue| is_best_of(pool, v)
}

/// The outcome of classifying a collection of cards: the worth of its best
/// hand of five, or `InvalidHand` where the collection cannot be classified.
pub open spec fn classify_spec(cards: Seq<Card>) -> Result<HandValue, HandError> {
    if valid_cards(cards) {
        Ok(best_value(cards.to_set()))
    } else {
        Err(HandError::InvalidHand)
    }
}

/// The hand made of the cards at five places of a collection.
spec fn pick(s: Seq<Card>, i: int, j: int, k: int, l: int, m: int) -> Set<Card> {
    five(s[i], s[j], s[k], s[l], s[m])
}

/// Five places of a collection of `n` cards, in ascending order.
spec fn ordered(n: int, i: int, j: int, k: int, l: int, m: int) -> bool {
    0 <= i < j < k < l < m < n
}

/// The worth of the hand at five places.
#[verifier::opaque]
spec fn choice_value(s: Seq<Card>, i: int, j: int, k: int, l: int, m: int) -> HandValue {
    hand_value(pick(s, i, j, k, l, m))
}

/// Whether some five places of the collection hold a hand worth `v`.
#[verifier::opaque]
spec fn attained(s: Seq<Card>, v: HandValue) -> bool {
    exists|i: int, j: int, k: int, l: int, m: int|
        ordered(s.len() as int, i, j, k, l, m) && #[trigger] choice_value(s, i, j, k, l, m) == v
}

/// The worth of the hand at five ascending places is attained.
proof fn lemma_attained(s: Seq<Card>, i: int, j: int, k: int, l: int, m: int)
    requires
        ordered(s.len() as int, i, j, k, l, m),
    ensures
        attained(s, choice_value(s, i, j, k, l, m)),
{
    reveal(attained);
}

/// The best hand of five in a pool is one value: two candidates for it are
/// the same.
pub proof fn lemma_best_unique(pool: Set<Card>, v: HandValue, w: HandValue)
    requires
        is_best_of(pool, v),
        is_best_of(pool, w),
    ensures
        v == w,
        best_value(pool) == v,
{
    let hv = choose|h: Set<Card>| five_of(pool, h) && #[trigger] hand_value(h) == v;
    let hw = choose|h: Set<Card>| five_of(pool, h) && #[trigger] hand_value(h) == w;
    assert(at_most(hand_value(hv), w));
    assert(at_most(hand_value(hw), v));
    lemma_at_most_antisymmetric(v, w);
    let b = best_value(pool);
    assert(is_best_of(pool, b));
    let hb = choose|h: Set<Card>| five_of(pool, h) && #[trigger] hand_value(h) == b;
    assert(at_most(hand_value(hb), v));
    assert(at_most(hand_value(hv), b));
    lemma_at_most_antisymmetric(v, b);
}

/// Cards at five different places of a collection without duplicates are a
/// hand of five from it.
proof fn lemma_pick_is_five(s: Seq<Card>, i: int, j: int, k: int, l: int, m: int)
    requires
        s.no_duplicates(),
        ordered(s.len() as int, i, j, k, l, m),
    ensures
        five_of(s.to_set(), pick(s, i, j, k, l, m)),
{
    let h0 = Set::<Card>::empty();
    let h1 = h0.insert(s[i]);
    let h2 = h1.insert(s[j]);
    let h3 = h2.insert(s[k]);
    let h4 = h3.insert(s[l]);
    let h5 = h4.insert(s[m]);
    assert(h1.len() == 1);
    assert(h2.len() == 2);
    assert(h3.len() == 3);
    assert(h4.len() == 4);
    assert(h5.len() == 5);
    assert(s.contains(s[i]) && s.contains(s[j]) && s.contains(s[k]) && s.contains(s[l])
        && s.contains(s[m]));
    assert(h5.subset_of(s.to_set()));
}

/// The first place, from `start` on, whose card belongs to the set `g`.
proof fn first_place(s: Seq<Card>, g: Set<Card>, start: int) -> (p: int)
    requires
        g.finite(),
        g.len() > 0,
        g.subset_of(s.to_set()),
        0 <= start,
        forall|q: int| 0 <= q < start && q < s.len() ==> !g.contains(#[trigger] s[q]),
    ensures
        start <= p < s.len(),
        g.contains(s[p]),
        forall|q: int| 0 <= q < p ==> !g.contains(#[trigger] s[q]),
    decreases s.len() - start,
{
    if start >= s.len() {
        let e = g.choose();
        assert(g.contains(e));
        assert(s.to_set().contains(e));
        assert(s.contains(e));
        let q = choose|q: int| 0 <= q < s.len() && s[q] == e;
        assert(!g.contains(s[q]));
        arbitrary()
    } else if g.contains(s[start]) {
        start
    } else {
        first_place(s, g, start + 1)
    }
}

/// Every hand of five from a collection without duplicates stands at five
/// places of it, in ascending order.
proof fn lemma_five_is_pick(s: Seq<Card>, h: Set<Card>)
    requires
        s.no_duplicates(),
        five_of(s.to_set(), h),
    ensures
        exists|i: int, j: int, k: int, l: int, m: int|
            ordered(s.len() as int, i, j, k, l, m) && #[trigger] pick(s, i, j, k, l, m) == h,
{
    let i = first_place(s, h, 0);
    let h1 = h.remove(s[i]);
    let j = first_place(s, h1, i + 1);
    let h2 = h1.remove(s[j]);
    let k = first_place(s, h2, j + 1);
    let h3 = h2.remove(s[k]);
    let l = first_place(s, h3, k + 1);
    let h4 = h3.remove(s[l]);
    let m = first_place(s, h4, l + 1);
    let h5 = h4.remove(s[m]);
    assert(h5.len() == 0);
    h5.lemma_len0_is_empty();
    assert(h5 =~= Set::<Card>::empty());
    assert(pick(s, i, j, k, l, m) =~= h) by {
        assert forall|c: Card| h.contains(c) implies pick(s, i, j, k, l, m).contains(c) by {
            if c != s[i] && c != s[j] && c != s[k] && c != s[l] && c != s[m] {
                assert(h1.contains(c));
                assert(h2.contains(c));
                assert(h3.contains(c));
                assert(h4.contains(c));
                assert(h5.contains(c));
            }
        }
    }
    assert(ordered(s.len() as int, i, j, k, l, m));
}

/// Whether no card occurs twice in the collection.
pub fn all_distinct(cards: &Vec<Card>) -> (ok: bool)
    ensures
        ok == cards@.no_duplicates(),
{
    let mut i: usize = 0;
    while i < cards.len()
        invariant
            i <= cards@.len(),
            forall|a: int, b: int| 0 <= a < b < i ==> cards@[a] != cards@[b],
        decreases cards@.len() - i,
    {
        let mut j: usize = 0;
        while j < i
            invariant
                j <= i < cards@.len(),
                forall|a: int, b: int| 0 <= a < b < i ==> cards@[a] != cards@[b],
                forall|a: int| 0 <= a < j ==> cards@[a] != cards@[i as int],
            decreases i - j,
        {
            if cards[j] == cards[i] {
                return false;
            }
            j += 1;
        }
        i += 1;
    }
    assert forall|a: int, b: int|
        0 <= a < cards@.len() && 0 <= b < cards@.len() && a != b implies cards@[a]
        != cards@[b] by {
        if a < b {
            assert(cards@[a] != cards@[b]);
        } else {
            assert(cards@[b] != cards@[a]);
        }
    }
    true
}

/// Classifies the hand at five places.
fn value_at(cards: &Vec<Card>, i: usize, j: usize, k: usize, l: usize, m: usize) -> (hand:
    ClassifiedHand)
    requires
        cards@.no_duplicates(),
        ordered(cards@.len() as int, i as int, j as int, k as int, l as int, m as int),
    ensures
        hand@ == choice_value(cards@, i as int, j as int, k as int, l as int, m as int),
{
    proof {
        reveal(choice_value);
    }
    classify_five(cards[i], cards[j], cards[k], cards[l], cards[m])
}

/// Improves `best` over the hands that stand at `i`, `j`, `k`, `l` and one
/// later place.
fn best_with_four(cards: &Vec<Card>, i: usize, j: usize, k: usize, l: usize, best: ClassifiedHand) -> (kept: ClassifiedHand)
    requires
        cards@.no_duplicates(),
        0 <= i < j < k < l < cards@.len(),
        attained(cards@, best@),
    ensures
        attained(cards@, kept@),
        at_most(best@, kept@),
        forall|m: int|
            l < m < cards@.len() ==> at_most(
                #[trigger] choice_value(cards@, i as int, j as int, k as int, l as int, m),
                kept@,
            ),
{
    let ghost first = best@;
    let mut kept = best;
    let len: usize = cards.len();
    let mut m: usize = l + 1;
    proof {
        lemma_at_most_reflexive(first);
    }
    while m < len
        invariant
            cards@.no_duplicates(),
            len == cards@.len(),
            0 <= i < j < k < l < m <= cards@.len(),
            attained(cards@, kept@),
            at_most(first, kept@),
            forall|n: int|
                l < n < m ==> at_most(
                    #[trigger] choice_value(cards@, i as int, j as int, k as int, l as int, n),
                    kept@,
                ),
        decreases cards@.len() - m,
    {
        let ghost before = kept@;
        let candidate = value_at(cards, i, j, k, l, m);
        kept = better_of(kept, candidate);
        proof {
            lemma_attained(cards@, i as int, j as int, k as int, l as int, m as int);
            lemma_at_most_transitive(first, before, kept@);
            assert forall|n: int| l < n < m + 1 implies at_most(
                #[trigger] choice_value(cards@, i as int, j as int, k as int, l as int, n),
                kept@,
            ) by {
                if n < m {
                    lemma_at_most_transitive(
                        choice_value(cards@, i as int, j as int, k as int, l as int, n),
                        before,
                        kept@,
                    );
                }
            }
        }
        m += 1;
    }
    kept
}

/// Improves `best` over the hands that stand at `i`, `j`, `k` and two later
/// places.
fn best_with_three(cards: &Vec<Card>, i: usize, j: usize, k: usize, best: ClassifiedHand) -> (kept: ClassifiedHand)
    requires
        cards@.no_duplicates(),
        0 <= i < j < k < cards@.len(),
        attained(cards@, best@),
    ensures
        attained(cards@, kept@),
        at_most(best@, kept@),
        forall|l: int, m: int|
            k < l < m < cards@.len() ==> at_most(
                #[trigger] choice_value(cards@, i as int, j as int, k as int, l, m),
                kept@,
            ),
{
    let ghost first = best@;
    let mut kept = best;
    let len: usize = cards.len();
    let mut l: usize = k + 1;
    proof {
        lemma_at_most_reflexive(first);
    }
    while l < len
        invariant
            cards@.no_duplicates(),
            len == cards@.len(),
            0 <= i < j < k < l <= cards@.len(),
            attained(cards@, kept@),
            at_most(first, kept@),
            forall|n: int, m: int|
                k < n < l && n < m < cards@.len() ==> at_most(
                    #[trigger] choice_value(cards@, i as int, j as int, k as int, n, m),
                    kept@,
                ),
        decreases cards@.len() - l,
    {
        let ghost before = kept@;
        kept = best_with_four(cards, i, j, k, l, kept);
        proof {
            lemma_at_most_transitive(first, before, kept@);
            assert forall|n: int, m: int| k < n < l + 1 && n < m < cards@.len() implies at_most(
                #[trigger] choice_value(cards@, i as int, j as int, k as int, n, m),
                kept@,
            ) by {
                if n < l {
                    lemma_at_most_transitive(
                        choice_value(cards@, i as int, j as int, k as int, n, m),
                        before,
                        kept@,
                    );
                }
            }
        }
        l += 1;
    }
    kept
}

/// Improves `best` over the hands that stand at `i`, `j` and three later
/// places.
fn best_with_two(cards: &Vec<Card>, i: usize, j: usize, best: ClassifiedHand) -> (kept: ClassifiedHand)
    requires
        cards@.no_duplicates(),
        0 <= i < j < cards@.len(),
        attained(cards@, best@),
    ensures
        attained(cards@, kept@),
        at_most(best@, kept@),
        forall|k: int, l: int, m: int|
            j < k < l < m < cards@.len() ==> at_most(
                #[trigger] choice_value(cards@, i as int, j as int, k, l, m),
                kept@,
            ),
{
    let ghost first = best@;
    let mut kept = best;
    let len: usize = cards.len();
    let mut k: usize = j + 1;
    proof {
        lemma_at_most_reflexive(first);
    }
    while k < len
        invariant
            cards@.no_duplicates(),
            len == cards@.len(),
            0 <= i < j < k <= cards@.len(),
            attained(cards@, kept@),
            at_most(first, kept@),
            forall|n: int, l: int, m: int|
                j < n < k && n < l < m < cards@.len() ==> at_most(
                    #[trigger] choice_value(cards@, i as int, j as int, n, l, m),
                    kept@,
                ),
        decreases cards@.len() - k,
    {
        let ghost before = kept@;
        kept = best_with_three(cards, i, j, k, kept);
        proof {
            lemma_at_most_transitive(first, before, kept@);
            assert forall|n: int, l: int, m: int|
                j < n < k + 1 && n < l < m < cards@.len() implies at_most(
                #[trigger] choice_value(cards@, i as int, j as int, n, l, m),
                kept@,
            ) by {
                if n < k {
                    lemma_at_most_transitive(
                        choice_value(cards@, i as int, j as int, n, l, m),
                        before,
                        kept@,
                    );
                }
            }
        }
        k += 1;
    }
    kept
}

/// Improves `best` over the hands that stand at `i` and four later places.
fn best_with_one(cards: &Vec<Card>, i: usize, best: ClassifiedHand) -> (kept: ClassifiedHand)
    requires
        cards@.no_duplicates(),
        0 <= i < cards@.len(),
        attained(cards@, best@),
    ensures
        attained(cards@, kept@),
        at_most(best@, kept@),
        forall|j: int, k: int, l: int, m: int|
            i < j < k < l < m < cards@.len() ==> at_most(
                #[trigger] choice_value(cards@, i as int, j, k, l, m),
                kept@,
            ),
{
    let ghost first = best@;
    let mut kept = best;
    let len: usize = cards.len();
    let mut j: usize = i + 1;
    proof {
        lemma_at_most_reflexive(first);
    }
    while j < len
        invariant
            cards@.no_duplicates(),
            len == cards@.len(),
            0 <= i < j <= cards@.len(),
            attained(cards@, kept@),
            at_most(first, kept@),
            forall|n: int, k: int, l: int, m: int|
                i < n < j && n < k < l < m < cards@.len() ==> at_most(
                    #[trigger] choice_value(cards@, i as int, n, k, l, m),
                    kept@,
                ),
        decreases cards@.len() - j,
    {
        let ghost before = kept@;
        kept = best_with_two(cards, i, j, kept);
        proof {
            lemma_at_most_transitive(first, before, kept@);
            assert forall|n: int, k: int, l: int, m: int|
                i < n < j + 1 && n < k < l < m < cards@.len() implies at_most(
                #[trigger] choice_value(cards@, i as int, n, k, l, m),
                kept@,
            ) by {
                if n < j {
                    lemma_at_most_transitive(
                        choice_value(cards@, i as int, n, k, l, m),
                        before,
                        kept@,
                    );
                }
            }
        }
        j += 1;
    }
    kept
}

/// The best hand over all choices of five places.
fn best_of_all(cards: &Vec<Card>) -> (kept: ClassifiedHand)
    requires
        valid_cards(cards@),
    ensures
        attained(cards@, kept@),
        forall|i: int, j: int, k: int, l: int, m: int|
            ordered(cards@.len() as int, i, j, k, l, m) ==> at_most(
                #[trigger] choice_value(cards@, i, j, k, l, m),
                kept@,
            ),
{
    let mut kept = value_at(cards, 0, 1, 2, 3, 4);
    proof {
        lemma_attained(cards@, 0, 1, 2, 3, 4);
    }
    let mut i: usize = 0;
    while i < cards.len()
        invariant
            valid_cards(cards@),
            0 <= i <= cards@.len(),
            attained(cards@, kept@),
            forall|n: int, j: int, k: int, l: int, m: int|
                0 <= n < i && n < j < k < l < m < cards@.len() ==> at_most(
                    #[trigger] choice_value(cards@, n, j, k, l, m),
                    kept@,
                ),
        decreases cards@.len() - i,
    {
        let ghost before = kept@;
        kept = best_with_one(cards, i, kept);
        proof {
            assert forall|n: int, j: int, k: int, l: int, m: int|
                0 <= n < i + 1 && n < j < k < l < m < cards@.len() implies at_most(
                #[trigger] choice_value(cards@, n, j, k, l, m),
                kept@,
            ) by {
                if n < i {
                    lemma_at_most_transitive(choice_value(cards@, n, j, k, l, m), before, kept@);
                }
            }
        }
        i += 1;
    }
    kept
}

/// Classifies a collection of at least five different cards: the category and
/// the tie-break key of the best hand of five in it. A collection of fewer
/// than five cards, or one that holds a card twice, is an `InvalidHand`.
pub fn classify(cards: &Vec<Card>) -> (outcome: Result<ClassifiedHand, HandError>)
    ensures
        outcome.is_ok() <==> valid_cards(cards@),
        outcome.is_err() ==> outcome == Err::<ClassifiedHand, HandError>(HandError::InvalidHand),
        outcome.is_ok() ==> is_best_of(cards@.to_set(), outcome.unwrap()@),
        match outcome {
            Ok(hand) => classify_spec(cards@) == Ok::<HandValue, HandError>(hand@),
            Err(e) => classify_spec(cards@) == Err::<HandValue, HandError>(e),
        },
{
    if cards.len() < HAND_SIZE {
        return Err(HandError::InvalidHand);
    }
    if !all_distinct(cards) {
        return Err(HandError::InvalidHand);
    }
    let kept = best_of_all(cards);
    proof {
        reveal(attained);
        reveal(choice_value);
        let s = cards@;
        let v = kept@;
        let (i, j, k, l, m) = choose|i: int, j: int, k: int, l: int, m: int|
            ordered(s.len() as int, i, j, k, l, m) && #[trigger] choice_value(s, i, j, k, l, m)
                == v;
        lemma_pick_is_five(s, i, j, k, l, m);
        assert(five_of(s.to_set(), pick(s, i, j, k, l, m)) && hand_value(pick(s, i, j, k, l, m))
            == v);
        assert forall|h: Set<Card>| five_of(s.to_set(), h) implies at_most(
            #[trigger] hand_value(h),
            v,
        ) by {
            lemma_five_is_pick(s, h);
            let (a, b, c, d, e) = choose|a: int, b: int, c: int, d: int, e: int|
                ordered(s.len() as int, a, b, c, d, e) && #[trigger] pick(s, a, b, c, d, e) == h;
            assert(at_most(choice_value(s, a, b, c, d, e), v));
        }
        assert(is_best_of(s.to_set(), v));
        lemma_best_unique(s.to_set(), v, v);
    }
    Ok(kept)
}

/// The rank value at a place of a key, and 0 past its end.
spec fn digit(v: HandValue, p: int) -> int {
    if p < v.key.len() {
        v.key[p].value_spec()
    } else {
        0
    }
}

/// Whether `a` stands above `b` when the strength of the category and the
/// first five places of the key are read as one number.
spec fn stands_above(a: HandValue, b: HandValue) -> bool {
    let sa = a.category.strength_spec();
    let sb = b.category.strength_spec();
    ||| sa > sb
    ||| sa == sb && digit(a, 0) > digit(b, 0)
    ||| sa == sb && digit(a, 0) == digit(b, 0) && digit(a, 1) > digit(b, 1)
    ||| sa == sb && digit(a, 0) == digit(b, 0) && digit(a, 1) == digit(b, 1) && digit(a, 2)
        > digit(b, 2)
    ||| sa == sb && digit(a, 0) == digit(b, 0) && digit(a, 1) == digit(b, 1) && digit(a, 2)
        == digit(b, 2) && digit(a, 3) > digit(b, 3)
    ||| sa == sb && digit(a, 0) == digit(b, 0) && digit(a, 1) == digit(b, 1) && digit(a, 2)
        == digit(b, 2) && digit(a, 3) == digit(b, 3) && digit(a, 4) > digit(b, 4)
}

/// A hand that beats another, both with keys of at most five ranks, stands
/// above it.
proof fn lemma_winner_stands_above(a: HandValue, b: HandValue)
    requires
        !at_most(a, b),
        a.key.len() <= 5,
        b.key.len() <= 5,
    ensures
        stands_above(a, b),
{
    reveal(at_most);
    reveal_with_fuel(super::comparator::compare_keys_from, 7);
}

/// A hand of five from the pool that none of the pool beats, found by
/// climbing from a given hand to one that beats it for as long as there is
/// one.
proof fn best_hand_from(pool: Set<Card>, start: Set<Card>) -> (top: Set<Card>)
    requires
        five_of(pool, start),
    ensures
        five_of(pool, top),
        forall|h: Set<Card>| five_of(pool, h) ==> at_most(#[trigger] hand_value(h), hand_value(top)),
    decreases
        9 - hand_value(start).category.strength_spec(),
        14 - digit(hand_value(start), 0),
        14 - digit(hand_value(start), 1),
        14 - digit(hand_value(start), 2),
        14 - digit(hand_value(start), 3),
        14 - digit(hand_value(start), 4),
{
    if forall|h: Set<Card>| five_of(pool, h) ==> at_most(#[trigger] hand_value(h), hand_value(start)) {
        start
    } else {
        let next = choose|h: Set<Card>|
            five_of(pool, h) && !at_most(#[trigger] hand_value(h), hand_value(start));
        super::evaluation::lemma_key_length(next);
        super::evaluation::lemma_key_length(start);
        lemma_winner_stands_above(hand_value(next), hand_value(start));
        best_hand_from(pool, next)
    }
}

/// Every pool of at least five cards has a best hand of five, and
/// `best_value` is what it is worth.
pub proof fn lemma_best_exists(pool: Set<Card>)
    requires
        pool.finite(),
        pool.len() >= 5,
    ensures
        is_best_of(pool, best_value(pool)),
{
    let a = pool.choose();
    let rest_a = pool.remove(a);
    let b = rest_a.choose();
    let rest_b = rest_a.remove(b);
    let c = rest_b.choose();
    let rest_c = rest_b.remove(c);
    let d = rest_c.choose();
    let rest_d = rest_c.remove(d);
    let e = rest_d.choose();
    assert(rest_d.len() >= 1);
    assert(pool.contains(a) && rest_a.contains(b) && rest_b.contains(c) && rest_c.contains(d) && rest_d.contains(e));
    let h1 = Set::<Card>::empty().insert(a);
    let h2 = h1.insert(b);
    let h3 = h2.insert(c);
    let h4 = h3.insert(d);
    let start = h4.insert(e);
    assert(h1.len() == 1);
    assert(h2.len() == 2);
    assert(h3.len() == 3);
    assert(h4.len() == 4);
    assert(start.len() == 5);
    assert(start.subset_of(pool));
    assert(start == five(a, b, c, d, e));
    let top = best_hand_from(pool, start);
    assert(is_best_of(pool, hand_value(top)));
    lemma_best_unique(pool, hand_value(top), hand_value(top));
}

/// Every collection that can be classified has an outcome that is the worth
/// of the best hand of five in it.
pub proof fn lemma_classified_is_best(cards: Seq<Card>)
    requires
        valid_cards(cards),
    ensures
        classify_spec(cards).is_ok(),
        is_best_of(cards.to_set(), classify_spec(cards).unwrap()),
{
    cards.unique_seq_to_set();
    assert(cards.to_set().finite());
    lemma_best_exists(cards.to_set());
}

/// The order of the cards plays no part: two collections that hold the same
/// cards, in whatever order, have the same outcome.
pub proof fn lemma_classify_order_free(a: Seq<Card>, b: Seq<Card>)
    requires
        a.to_multiset() == b.to_multiset(),
    ensures
        classify_spec(a) == classify_spec(b),
{
    vstd::seq_lib::to_multiset_len(a);
    vstd::seq_lib::to_multiset_len(b);
    assert forall|c: Card| a.contains(c) == b.contains(c) by {
        vstd::seq_lib::to_multiset_contains(a, c);
        vstd::seq_lib::to_multiset_contains(b, c);
    }
    assert(a.to_set() =~= b.to_set());
    if a.no_duplicates() {
        a.lemma_multiset_has_no_duplicates();
        b.lemma_multiset_has_no_duplicates_conv();
    }
    if b.no_duplicates() {
        b.lemma_multiset_has_no_duplicates();
        a.lemma_multiset_has_no_duplicates_conv();
    }
}

/// A collection of exactly five cards is its own best hand: it is worth what
/// its five cards are worth.
pub proof fn lemma_classify_hand_of_five(cards: Seq<Card>)
    requires
        valid_cards(cards),
        cards.len() == 5,
    ensures
        is_best_of(cards.to_set(), hand_value(cards.to_set())),
        classify_spec(cards) == Ok::<HandValue, HandError>(hand_value(cards.to_set())),
{
    let pool = cards.to_set();
    let v = hand_value(pool);
    cards.unique_seq_to_set();
    assert(pool.finite());
    assert(five_of(pool, pool));
    assert forall|h: Set<Card>| five_of(pool, h) implies at_most(#[trigger] hand_value(h), v) by {
        vstd::set_lib::lemma_subset_equality(h, pool);
        lemma_at_most_reflexive(v);
    }
    lemma_best_unique(pool, v, v);
}

/// Two hands in which every rank occurs equally often give the same groups of
/// ranks.
pub proof fn lemma_same_counts_same_groups(a: Set<Card>, b: Set<Card>, n: nat, floor: int)
    requires
        forall|r: Rank| rank_count(a, r) == rank_count(b, r),
    ensures
        ranks_with_count(a, n, floor) == ranks_with_count(b, n, floor),
    decreases 15 - floor,
{
    if floor <= 14 {
        lemma_same_counts_same_groups(a, b, n, floor + 1);
    }
}

/// Suits break no tie. Two hands of five in which every rank occurs equally
/// often, neither of them a flush, are worth the same and compare equal,
/// whatever their suits.
pub proof fn lemma_suits_break_no_tie(a: Seq<Card>, b: Seq<Card>)
    requires
        valid_cards(a),
        a.len() == 5,
        valid_cards(b),
        b.len() == 5,
        forall|r: Rank| rank_count(a.to_set(), r) == rank_count(b.to_set(), r),
        !is_flush(a.to_set()),
        !is_flush(b.to_set()),
    ensures
        classify_spec(a) == classify_spec(b),
        compare_spec(classify_spec(a).unwrap(), classify_spec(b).unwrap()) == Ordering::Equal,
{
    let ha = a.to_set();
    let hb = b.to_set();
    lemma_classify_hand_of_five(a);
    lemma_classify_hand_of_five(b);
    lemma_same_counts_same_groups(ha, hb, 4, 2);
    lemma_same_counts_same_groups(ha, hb, 3, 2);
    lemma_same_counts_same_groups(ha, hb, 2, 2);
    lemma_same_counts_same_groups(ha, hb, 1, 2);
    assert forall|low: int| run_from(ha, low) == run_from(hb, low) by {}
    assert(is_straight(ha) == is_straight(hb)) by {
        if is_straight(ha) {
            let low = choose|low: int| 1 <= low <= 10 && #[trigger] run_from(ha, low);
            assert(run_from(hb, low));
        }
        if is_straight(hb) {
            let low = choose|low: int| 1 <= low <= 10 && #[trigger] run_from(hb, low);
            assert(run_from(ha, low));
        }
    }
    assert(hand_value(ha) == hand_value(hb));
    lemma_compare_reflexive(hand_value(ha));
}

} // verus!
