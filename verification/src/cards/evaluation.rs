//! What five cards are worth.
//!
//! A hand of five is a set of cards. Its worth is read off two things: how
//! often each rank occurs in it, and whether all its cards share a suit. From
//! these follow the category, by a fixed order of tests, and the tie-break
//! key: the ranks of the hand, those that occur more often first, and among
//! ranks that occur equally often the higher first.

use vstd::prelude::*;
use super::card::Card;
use super::hand::ClassifiedHand;
use super::hand::Hand;
use super::hand::HandValue;
use super::rank::Rank;
use super::suit::Suit;

verus! {

/// 1 if the hand holds the card of this suit and rank, else 0.
pub open spec fn holds(h: Set<Card>, suit: Suit, rank: Rank) -> nat {
    if h.contains(Card { suit, rank }) {
        1
    } else {
        0
    }
}

/// How many cards of the hand have the given rank.
pub open spec fn rank_count(h: Set<Card>, r: Rank) -> nat {
    holds(h, Suit::Clubs, r) + holds(h, Suit::Diamonds, r) + holds(h, Suit::Hearts, r) + holds(
        h,
        Suit::Spades,
        r,
    )
}

/// Whether every card of the hand has the given suit.
pub open spec fn all_of_suit(h: Set<Card>, s: Suit) -> bool {
    forall|c: Card| #[trigger] h.contains(c) ==> c.suit == s
}

/// Whether the hand is a flush: all its cards share one suit.
pub open spec fn is_flush(h: Set<Card>) -> bool {
    all_of_suit(h, Suit::Clubs) || all_of_suit(h, Suit::Diamonds) || all_of_suit(h, Suit::Hearts)
        || all_of_suit(h, Suit::Spades)
}

/// The rank at a given height of a run. Height 1 is the ace playing low;
/// heights 2 to 14 are the ranks by their value.
pub open spec fn run_rank(height: int) -> Rank {
    if height == 1 {
        Rank::Ace
    } else {
        Rank::of_value(height)
    }
}

/// Every rank stands in a run at the height of its value, and the ace also
/// at the height of its low value, below the two.
pub proof fn lemma_run_rank(r: Rank)
    ensures
        run_rank(r.value_spec()) == r,
        run_rank(r.low_value_spec()) == r,
        r.low_value_spec() == 1 <==> r == Rank::Ace,
{
}

/// Whether the hand holds each of the five ranks from height `low` upwards
/// exactly once. With `low` 1 this is the wheel: ace, two, three, four, five.
pub open spec fn run_from(h: Set<Card>, low: int) -> bool {
    &&& rank_count(h, run_rank(low)) == 1
    &&& rank_count(h, run_rank(low + 1)) == 1
    &&& rank_count(h, run_rank(low + 2)) == 1
    &&& rank_count(h, run_rank(low + 3)) == 1
    &&& rank_count(h, run_rank(low + 4)) == 1
}

/// Whether the hand is a straight: five ranks in a row, each once, the lowest
/// run being the wheel and the highest the one from the ten to the ace.
pub open spec fn is_straight(h: Set<Card>) -> bool {
    exists|low: int| 1 <= low <= 10 && #[trigger] run_from(h, low)
}

/// The ranks of value `floor` and above that occur exactly `n` times in the
/// hand, the highest first.
pub open spec fn ranks_with_count(h: Set<Card>, n: nat, floor: int) -> Seq<Rank>
    decreases 15 - floor,
{
    if floor > 14 {
        Seq::empty()
    } else if rank_count(h, Rank::of_value(floor)) == n {
        ranks_with_count(h, n, floor + 1).push(Rank::of_value(floor))
    } else {
        ranks_with_count(h, n, floor + 1)
    }
}

/// The ranks that occur exactly `n` times in the hand, the highest first.
pub open spec fn group(h: Set<Card>, n: nat) -> Seq<Rank> {
    ranks_with_count(h, n, 2)
}

/// The tie-break key of a hand: its ranks by how often they occur, the most
/// frequent first, and by value, the highest first, among those that occur
/// equally often.
pub open spec fn tie_break_key(h: Set<Card>) -> Seq<Rank> {
    group(h, 4) + group(h, 3) + group(h, 2) + group(h, 1)
}

/// The category of a hand: the first of the ten tests, strongest first, that
/// the hand meets.
pub open spec fn category_of(h: Set<Card>) -> Hand {
    if is_flush(h) && run_from(h, 10) {
        Hand::RoyalFlush
    } else if is_flush(h) && is_straight(h) {
        Hand::StraightFlush
    } else if group(h, 4).len() >= 1 {
        Hand::FourOfAKind
    } else if group(h, 3).len() >= 1 && group(h, 3).len() + group(h, 2).len() >= 2 {
        Hand::FullHouse
    } else if is_flush(h) {
        Hand::Flush
    } else if is_straight(h) {
        Hand::Straight
    } else if group(h, 3).len() >= 1 {
        Hand::ThreeOfAKind
    } else if group(h, 2).len() == 2 {
        Hand::TwoPair
    } else if group(h, 2).len() == 1 {
        Hand::OnePair
    } else {
        Hand::HighCard
    }
}

/// What a hand of five cards is worth.
pub open spec fn hand_value(h: Set<Card>) -> HandValue {
    HandValue { category: category_of(h), key: tie_break_key(h) }
}

/// Whether rank `a` comes before rank `b` in the key of the hand: it occurs
/// more often, or as often and is the higher.
pub open spec fn comes_before(h: Set<Card>, a: Rank, b: Rank) -> bool {
    rank_count(h, a) > rank_count(h, b) || (rank_count(h, a) == rank_count(h, b)
        && a.value_spec() > b.value_spec())
}

/// The ranks that occur `n` times, from a floor upwards: each of them occurs
/// `n` times and has at least the floor's value, they descend strictly, and
/// none that qualifies is missing.
pub proof fn lemma_ranks_with_count(h: Set<Card>, n: nat, floor: int)
    requires
        2 <= floor,
    ensures
        forall|i: int|
            0 <= i < ranks_with_count(h, n, floor).len() ==> rank_count(
                h,
                #[trigger] ranks_with_count(h, n, floor)[i],
            ) == n && floor <= ranks_with_count(h, n, floor)[i].value_spec(),
        forall|i: int, j: int|
            0 <= i < j < ranks_with_count(h, n, floor).len() ==> (#[trigger] ranks_with_count(
                h,
                n,
                floor,
            )[i]).value_spec() > (#[trigger] ranks_with_count(h, n, floor)[j]).value_spec(),
        forall|r: Rank|
            rank_count(h, r) == n && floor <= r.value_spec() ==> ranks_with_count(
                h,
                n,
                floor,
            ).contains(r),
    decreases 15 - floor,
{
    let g = ranks_with_count(h, n, floor);
    if floor <= 14 {
        lemma_ranks_with_count(h, n, floor + 1);
        let above = ranks_with_count(h, n, floor + 1);
        assert forall|r: Rank| rank_count(h, r) == n && floor <= r.value_spec() implies g.contains(
            r,
        ) by {
            super::rank::lemma_rank_value_roundtrip(r, floor);
            if floor < r.value_spec() {
                assert(above.contains(r));
                let i = choose|i: int| 0 <= i < above.len() && above[i] == r;
                assert(g[i] == r);
            } else {
                assert(r == Rank::of_value(floor));
                assert(g[g.len() - 1] == r);
            }
        }
    } else {
        assert forall|r: Rank| rank_count(h, r) == n && floor <= r.value_spec() implies g.contains(
            r,
        ) by {
            super::rank::lemma_rank_value_roundtrip(r, floor);
        }
    }
}

/// The tie-break key holds each rank of the hand once, and orders them by
/// how often they occur, the most frequent first, and among ranks that occur
/// equally often by value, the highest first.
pub proof fn lemma_key_is_sorted(h: Set<Card>)
    ensures
        forall|i: int, j: int|
            0 <= i < j < tie_break_key(h).len() ==> comes_before(
                h,
                #[trigger] tie_break_key(h)[i],
                #[trigger] tie_break_key(h)[j],
            ),
        forall|r: Rank| rank_count(h, r) >= 1 <==> tie_break_key(h).contains(r),
{
    let key = tie_break_key(h);
    let a = group(h, 4);
    let b = group(h, 3);
    let c = group(h, 2);
    let d = group(h, 1);
    lemma_ranks_with_count(h, 4, 2);
    lemma_ranks_with_count(h, 3, 2);
    lemma_ranks_with_count(h, 2, 2);
    lemma_ranks_with_count(h, 1, 2);
    assert forall|i: int| 0 <= i < key.len() implies {
        &&& i < a.len() ==> key[i] == a[i]
        &&& a.len() <= i < a.len() + b.len() ==> key[i] == b[i - a.len()]
        &&& a.len() + b.len() <= i < a.len() + b.len() + c.len() ==> key[i] == c[i - a.len()
            - b.len()]
        &&& a.len() + b.len() + c.len() <= i ==> key[i] == d[i - a.len() - b.len() - c.len()]
    } by {}
    assert forall|i: int, j: int| 0 <= i < j < key.len() implies comes_before(
        h,
        #[trigger] key[i],
        #[trigger] key[j],
    ) by {
        let x = key[i];
        let y = key[j];
        if i < a.len() {
            assert(x == a[i]);
        } else if i < a.len() + b.len() {
            assert(x == b[i - a.len()]);
        } else if i < a.len() + b.len() + c.len() {
            assert(x == c[i - a.len() - b.len()]);
        } else {
            assert(x == d[i - a.len() - b.len() - c.len()]);
        }
        if j < a.len() {
            assert(y == a[j]);
        } else if j < a.len() + b.len() {
            assert(y == b[j - a.len()]);
        } else if j < a.len() + b.len() + c.len() {
            assert(y == c[j - a.len() - b.len()]);
        } else {
            assert(y == d[j - a.len() - b.len() - c.len()]);
        }
    }
    assert forall|r: Rank| rank_count(h, r) >= 1 <==> key.contains(r) by {
        super::rank::lemma_rank_value_roundtrip(r, 2);
        if rank_count(h, r) >= 1 {
            if rank_count(h, r) == 4 {
                let i = choose|i: int| 0 <= i < a.len() && a[i] == r;
                assert(key[i] == r);
            } else if rank_count(h, r) == 3 {
                let i = choose|i: int| 0 <= i < b.len() && b[i] == r;
                assert(key[a.len() + i] == r);
            } else if rank_count(h, r) == 2 {
                let i = choose|i: int| 0 <= i < c.len() && c[i] == r;
                assert(key[a.len() + b.len() + i] == r);
            } else {
                let i = choose|i: int| 0 <= i < d.len() && d[i] == r;
                assert(key[a.len() + b.len() + c.len() + i] == r);
            }
        }
        if key.contains(r) {
            let i = choose|i: int| 0 <= i < key.len() && key[i] == r;
            if i < a.len() {
                assert(r == a[i]);
            } else if i < a.len() + b.len() {
                assert(r == b[i - a.len()]);
            } else if i < a.len() + b.len() + c.len() {
                assert(r == c[i - a.len() - b.len()]);
            } else {
                assert(r == d[i - a.len() - b.len() - c.len()]);
            }
        }
    }
}

/// The key of a hand is no longer than the hand: it has one place for each
/// rank, and each of its ranks is that of a card of the hand.
pub proof fn lemma_key_length(h: Set<Card>)
    requires
        h.finite(),
    ensures
        tie_break_key(h).no_duplicates(),
        tie_break_key(h).len() <= h.len(),
{
    let key = tie_break_key(h);
    lemma_key_is_sorted(h);
    assert forall|i: int, j: int| 0 <= i < key.len() && 0 <= j < key.len() && i != j implies key[i]
        != key[j] by {
        if i < j {
            assert(comes_before(h, key[i], key[j]));
        } else {
            assert(comes_before(h, key[j], key[i]));
        }
    }
    key.unique_seq_to_set();
    let rank_of = |c: Card| c.rank;
    let ranks = h.map(rank_of);
    assert forall|r: Rank| key.to_set().contains(r) <==> ranks.contains(r) by {
        assert(key.to_set().contains(r) <==> key.contains(r));
        if rank_count(h, r) >= 1 {
            let c = if h.contains(Card { suit: Suit::Clubs, rank: r }) {
                Card { suit: Suit::Clubs, rank: r }
            } else if h.contains(Card { suit: Suit::Diamonds, rank: r }) {
                Card { suit: Suit::Diamonds, rank: r }
            } else if h.contains(Card { suit: Suit::Hearts, rank: r }) {
                Card { suit: Suit::Hearts, rank: r }
            } else {
                Card { suit: Suit::Spades, rank: r }
            };
            assert(h.contains(c) && rank_of(c) == r);
        }
        if ranks.contains(r) {
            let c = choose|c: Card| h.contains(c) && rank_of(c) == r;
            assert(c == Card { suit: c.suit, rank: r });
            assert(holds(h, c.suit, r) == 1);
        }
    }
    assert(key.to_set() =~= ranks);
    vstd::set_lib::lemma_map_size_bound(h, ranks, rank_of);
}

/// The hand made of five given cards.
pub open spec fn five(a: Card, b: Card, c: Card, d: Card, e: Card) -> Set<Card> {
    Set::empty().insert(a).insert(b).insert(c).insert(d).insert(e)
}

/// Whether five cards are five different cards.
pub open spec fn all_different(a: Card, b: Card, c: Card, d: Card, e: Card) -> bool {
    &&& a != b && a != c && a != d && a != e
    &&& b != c && b != d && b != e
    &&& c != d && c != e
    &&& d != e
}

/// Whether a table of counters, indexed by rank value, counts the ranks of
/// the hand.
pub open spec fn counts_match(counts: Seq<u8>, h: Set<Card>) -> bool {
    &&& counts.len() == 15
    &&& forall|v: int| 2 <= v <= 14 ==> #[trigger] counts[v] == rank_count(h, Rank::of_value(v))
}

/// A card that joins a hand raises the count of its own rank by one and
/// leaves the others as they were. No rank occurs more than four times.
pub proof fn lemma_rank_count_insert(h: Set<Card>, c: Card, r: Rank)
    requires
        !h.contains(c),
    ensures
        rank_count(h.insert(c), r) == rank_count(h, r) + if c.rank == r {
            1nat
        } else {
            0nat
        },
        rank_count(h.insert(c), r) <= 4,
{
}

/// A table of fifteen counters, all at zero.
fn zero_counts() -> (counts: Vec<u8>)
    ensures
        counts_match(counts@, Set::<Card>::empty()),
{
    let mut counts: Vec<u8> = Vec::new();
    let mut i: usize = 0;
    while i < 15
        invariant
            i <= 15,
            counts@.len() == i,
            forall|v: int| 0 <= v < i ==> counts@[v] == 0,
        decreases 15 - i,
    {
        counts.push(0);
        i += 1;
    }
    counts
}

/// Counts one more card.
fn tally(counts: &mut Vec<u8>, card: Card, Ghost(h): Ghost<Set<Card>>)
    requires
        counts_match(old(counts)@, h),
        !h.contains(card),
    ensures
        counts_match(final(counts)@, h.insert(card)),
{
    let v: usize = card.rank.value() as usize;
    proof {
        super::rank::lemma_rank_value_roundtrip(card.rank, v as int);
        lemma_rank_count_insert(h, card, card.rank);
        assert(counts@[v as int] == rank_count(h, Rank::of_value(v as int)));
    }
    let seen: u8 = counts[v];
    counts.set(v, seen + 1);
    proof {
        assert forall|w: int| 2 <= w <= 14 implies #[trigger] counts@[w] == rank_count(
            h.insert(card),
            Rank::of_value(w),
        ) by {
            lemma_rank_count_insert(h, card, Rank::of_value(w));
            super::rank::lemma_rank_value_roundtrip(card.rank, w);
            assert(old(counts)@[w] == rank_count(h, Rank::of_value(w)));
        }
    }
}

/// How often the rank at a height of a run occurs, the ace being found at
/// height 1 as well as at 14.
fn count_at(counts: &Vec<u8>, height: u8, Ghost(h): Ghost<Set<Card>>) -> (n: u8)
    requires
        counts_match(counts@, h),
        1 <= height <= 14,
    ensures
        n == rank_count(h, run_rank(height as int)),
{
    let v: usize = if height == 1 {
        14
    } else {
        height as usize
    };
    assert(counts@[v as int] == rank_count(h, Rank::of_value(v as int)));
    counts[v]
}

/// Whether the five ranks from a height upwards each occur once.
fn has_run_from(counts: &Vec<u8>, low: u8, Ghost(h): Ghost<Set<Card>>) -> (yes: bool)
    requires
        counts_match(counts@, h),
        1 <= low <= 10,
    ensures
        yes == run_from(h, low as int),
{
    count_at(counts, low, Ghost(h)) == 1 && count_at(counts, low + 1, Ghost(h)) == 1 && count_at(
        counts,
        low + 2,
        Ghost(h),
    ) == 1 && count_at(counts, low + 3, Ghost(h)) == 1 && count_at(counts, low + 4, Ghost(h)) == 1
}

/// Whether the counted hand is a straight.
fn has_run(counts: &Vec<u8>, Ghost(h): Ghost<Set<Card>>) -> (yes: bool)
    requires
        counts_match(counts@, h),
    ensures
        yes == is_straight(h),
{
    let mut low: u8 = 1;
    while low <= 10
        invariant
            1 <= low <= 11,
            counts_match(counts@, h),
            forall|l: int| 1 <= l < low ==> !#[trigger] run_from(h, l),
        decreases 11 - low,
    {
        if has_run_from(counts, low, Ghost(h)) {
            return true;
        }
        low += 1;
    }
    false
}

/// Appends to the key the ranks that occur `n` times, the highest first, and
/// says how many they are.
fn collect_group(counts: &Vec<u8>, n: u8, key: &mut Vec<Rank>, Ghost(h): Ghost<Set<Card>>) -> (found: usize)
    requires
        counts_match(counts@, h),
    ensures
        final(key)@ == old(key)@ + group(h, n as nat),
        found == group(h, n as nat).len(),
        found <= 13,
{
    let mut found: usize = 0;
    let mut v: u8 = 15;
    assert(key@ =~= old(key)@ + ranks_with_count(h, n as nat, 15));
    while v > 2
        invariant
            2 <= v <= 15,
            counts_match(counts@, h),
            key@ == old(key)@ + ranks_with_count(h, n as nat, v as int),
            found == ranks_with_count(h, n as nat, v as int).len(),
            found <= 15 - v,
        decreases v,
    {
        v -= 1;
        assert(counts@[v as int] == rank_count(h, Rank::of_value(v as int)));
        if counts[v as usize] == n {
            let rank = Rank::from_value(v);
            key.push(rank.unwrap());
            found += 1;
            assert(key@ =~= old(key)@ + ranks_with_count(h, n as nat, v as int));
        }
    }
    found
}

/// Classifies five different cards: their category and their tie-break key.
pub(crate) fn classify_five(a: Card, b: Card, c: Card, d: Card, e: Card) -> (hand: ClassifiedHand)
    requires
        all_different(a, b, c, d, e),
    ensures
        hand@ == hand_value(five(a, b, c, d, e)),
{
    let ghost h0 = Set::<Card>::empty();
    let ghost h1 = h0.insert(a);
    let ghost h2 = h1.insert(b);
    let ghost h3 = h2.insert(c);
    let ghost h4 = h3.insert(d);
    let ghost h = h4.insert(e);
    let mut counts = zero_counts();
    tally(&mut counts, a, Ghost(h0));
    tally(&mut counts, b, Ghost(h1));
    tally(&mut counts, c, Ghost(h2));
    tally(&mut counts, d, Ghost(h3));
    tally(&mut counts, e, Ghost(h4));
    let flush = a.suit == b.suit && a.suit == c.suit && a.suit == d.suit && a.suit == e.suit;
    proof {
        assert(h.contains(a) && h.contains(b) && h.contains(c) && h.contains(d) && h.contains(e));
        assert(forall|x: Card| #[trigger]
            h.contains(x) ==> x == a || x == b || x == c || x == d || x == e);
        assert(flush == is_flush(h));
    }
    let straight = has_run(&counts, Ghost(h));
    let royal_run = has_run_from(&counts, 10, Ghost(h));
    let mut key: Vec<Rank> = Vec::new();
    let quads = collect_group(&counts, 4, &mut key, Ghost(h));
    let trips = collect_group(&counts, 3, &mut key, Ghost(h));
    let pairs = collect_group(&counts, 2, &mut key, Ghost(h));
    let _singles = collect_group(&counts, 1, &mut key, Ghost(h));
    assert(key@ =~= tie_break_key(h));
    let category = if flush && royal_run {
        Hand::RoyalFlush
    } else if flush && straight {
        Hand::StraightFlush
    } else if quads >= 1 {
        Hand::FourOfAKind
    } else if trips >= 1 && trips + pairs >= 2 {
        Hand::FullHouse
    } else if flush {
        Hand::Flush
    } else if straight {
        Hand::Straight
    } else if trips >= 1 {
        Hand::ThreeOfAKind
    } else if pairs == 2 {
        Hand::TwoPair
    } else if pairs == 1 {
        Hand::OnePair
    } else {
        Hand::HighCard
    };
    ClassifiedHand { category, key }
}

} // verus!
