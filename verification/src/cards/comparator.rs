//! The order between classified hands.
//!
//! The category decides first. Within one category the tie-break keys are
//! compared rank by rank from the front, and the first place where they differ
//! decides: the higher rank wins. Hands that agree everywhere tie.

use vstd::prelude::*;
use core::cmp::Ordering;
use super::hand::ClassifiedHand;
use super::hand::HandValue;
use super::rank::Rank;

verus! {

/// The order of two keys read from place `from` on: the first place where the
/// ranks differ decides, and a key that ends first is the lesser.
pub open spec fn compare_keys_from(a: Seq<Rank>, b: Seq<Rank>, from: int) -> Ordering
    decreases a.len() - from,
{
    if from < 0 {
        Ordering::Equal
    } else if from >= a.len() && from >= b.len() {
        Ordering::Equal
    } else if from >= a.len() {
        Ordering::Less
    } else if from >= b.len() {
        Ordering::Greater
    } else if a[from].value_spec() < b[from].value_spec() {
        Ordering::Less
    } else if a[from].value_spec() > b[from].value_spec() {
        Ordering::Greater
    } else {
        compare_keys_from(a, b, from + 1)
    }
}

/// A place in a key, as a mathematical integer.
pub open spec fn place(i: usize) -> int {
    i as int
}

/// The lexicographic order of two tie-break keys.
pub open spec fn compare_keys(a: Seq<Rank>, b: Seq<Rank>) -> Ordering {
    compare_keys_from(a, b, 0)
}

/// The order of two hand values: by category, then by key.
pub open spec fn compare_spec(a: HandValue, b: HandValue) -> Ordering {
    if a.category.strength_spec() < b.category.strength_spec() {
        Ordering::Less
    } else if a.category.strength_spec() > b.category.strength_spec() {
        Ordering::Greater
    } else {
        compare_keys(a.key, b.key)
    }
}

/// Whether hand value `a` does not beat `b`.
#[verifier::opaque]
pub open spec fn at_most(a: HandValue, b: HandValue) -> bool {
    compare_spec(a, b) != Ordering::Greater
}

/// Compares two classified hands: `Greater` where `a` wins, `Less` where `b`
/// wins, `Equal` where they tie.
pub fn compare(a: &ClassifiedHand, b: &ClassifiedHand) -> (order: Ordering)
    ensures
        order == compare_spec(a@, b@),
{
    let sa: u8 = a.category.strength();
    let sb: u8 = b.category.strength();
    if sa < sb {
        return Ordering::Less;
    }
    if sa > sb {
        return Ordering::Greater;
    }
    let mut i: usize = 0;
    while i < a.key.len() && i < b.key.len()
        invariant
            i <= a.key@.len(),
            i <= b.key@.len(),
            a@.category.strength_spec() == b@.category.strength_spec(),
            compare_keys(a.key@, b.key@) == compare_keys_from(a.key@, b.key@, place(i)),
        decreases a.key@.len() - i,
    {
        let va: u8 = a.key[i].value();
        let vb: u8 = b.key[i].value();
        if va < vb {
            return Ordering::Less;
        }
        if va > vb {
            return Ordering::Greater;
        }
        i += 1;
    }
    if i < b.key.len() {
        Ordering::Less
    } else if i < a.key.len() {
        Ordering::Greater
    } else {
        Ordering::Equal
    }
}

/// Keys that compare equal from some place on agree from that place on.
pub proof fn lemma_keys_equal_from(a: Seq<Rank>, b: Seq<Rank>, from: int)
    requires
        0 <= from <= a.len(),
        from <= b.len(),
        compare_keys_from(a, b, from) == Ordering::Equal,
    ensures
        a.len() == b.len(),
        forall|i: int| from <= i < a.len() ==> a[i] == b[i],
    decreases a.len() - from,
{
    if from < a.len() && from < b.len() {
        lemma_keys_equal_from(a, b, from + 1);
    }
}

/// A key ties with itself from every place on.
pub proof fn lemma_keys_reflexive_from(a: Seq<Rank>, from: int)
    ensures
        compare_keys_from(a, a, from) == Ordering::Equal,
    decreases a.len() - from,
{
    if 0 <= from < a.len() {
        lemma_keys_reflexive_from(a, from + 1);
    }
}

/// Swapping two keys mirrors their order.
pub proof fn lemma_keys_mirror_from(a: Seq<Rank>, b: Seq<Rank>, from: int)
    ensures
        compare_keys_from(a, b, from) == Ordering::Less <==> compare_keys_from(b, a, from)
            == Ordering::Greater,
        compare_keys_from(a, b, from) == Ordering::Equal <==> compare_keys_from(b, a, from)
            == Ordering::Equal,
        compare_keys_from(a, b, from) == Ordering::Greater <==> compare_keys_from(b, a, from)
            == Ordering::Less,
    decreases a.len() - from,
{
    if 0 <= from < a.len() && from < b.len() {
        lemma_keys_mirror_from(a, b, from + 1);
    }
}

/// The order of keys is transitive, ties included.
pub proof fn lemma_keys_transitive_from(a: Seq<Rank>, b: Seq<Rank>, c: Seq<Rank>, from: int)
    requires
        compare_keys_from(a, b, from) != Ordering::Greater,
        compare_keys_from(b, c, from) != Ordering::Greater,
    ensures
        compare_keys_from(a, c, from) != Ordering::Greater,
        compare_keys_from(a, c, from) == Ordering::Equal ==> compare_keys_from(a, b, from)
            == Ordering::Equal && compare_keys_from(b, c, from) == Ordering::Equal,
    decreases a.len() - from,
{
    if 0 <= from < a.len() && from < b.len() && from < c.len() {
        if a[from].value_spec() == b[from].value_spec() && b[from].value_spec()
            == c[from].value_spec() {
            lemma_keys_transitive_from(a, b, c, from + 1);
        }
    }
}

/// Every hand ties with itself.
pub proof fn lemma_compare_reflexive(a: HandValue)
    ensures
        compare_spec(a, a) == Ordering::Equal,
{
    lemma_keys_reflexive_from(a.key, 0);
}

/// Swapping the two hands mirrors the outcome: `a` beats `b` exactly where `b`
/// loses to `a`, and a tie is a tie from both sides.
pub proof fn lemma_compare_antisymmetric(a: HandValue, b: HandValue)
    ensures
        compare_spec(a, b) == Ordering::Less <==> compare_spec(b, a) == Ordering::Greater,
        compare_spec(a, b) == Ordering::Equal <==> compare_spec(b, a) == Ordering::Equal,
        compare_spec(a, b) == Ordering::Greater <==> compare_spec(b, a) == Ordering::Less,
{
    lemma_keys_mirror_from(a.key, b.key, 0);
}

/// If `a` does not beat `b` and `b` does not beat `c`, then `a` does not beat
/// `c`; and `a` ties with `c` only where all three tie.
pub proof fn lemma_compare_transitive(a: HandValue, b: HandValue, c: HandValue)
    requires
        at_most(a, b),
        at_most(b, c),
    ensures
        at_most(a, c),
        compare_spec(a, c) == Ordering::Equal ==> compare_spec(a, b) == Ordering::Equal
            && compare_spec(b, c) == Ordering::Equal,
{
    reveal(at_most);
    if a.category.strength_spec() == b.category.strength_spec() && b.category.strength_spec()
        == c.category.strength_spec() {
        lemma_keys_transitive_from(a.key, b.key, c.key, 0);
    }
}

/// Two hands tie exactly where they are the same value: the same category and
/// the same key. So the best of a set of hands is one value, whoever holds it.
pub proof fn lemma_compare_equal_is_same(a: HandValue, b: HandValue)
    ensures
        compare_spec(a, b) == Ordering::Equal <==> a == b,
{
    if compare_spec(a, b) == Ordering::Equal {
        super::hand::lemma_strength_injective(a.category, b.category);
        lemma_keys_equal_from(a.key, b.key, 0);
        assert forall|i: int| 0 <= i < a.key.len() implies a.key[i] == b.key[i] by {}
        assert(a.key =~= b.key);
    }
    if a == b {
        lemma_compare_reflexive(a);
    }
}

/// Not beating is transitive.
pub proof fn lemma_at_most_transitive(a: HandValue, b: HandValue, c: HandValue)
    requires
        at_most(a, b),
        at_most(b, c),
    ensures
        at_most(a, c),
{
    lemma_compare_transitive(a, b, c);
}

/// No hand beats itself.
pub proof fn lemma_at_most_reflexive(a: HandValue)
    ensures
        at_most(a, a),
{
    reveal(at_most);
    lemma_compare_reflexive(a);
}

/// Two hands of which neither beats the other are the same value.
pub proof fn lemma_at_most_antisymmetric(a: HandValue, b: HandValue)
    requires
        at_most(a, b),
        at_most(b, a),
    ensures
        a == b,
{
    reveal(at_most);
    lemma_compare_antisymmetric(a, b);
    lemma_compare_equal_is_same(a, b);
}

/// Of two hands one does not beat the other: any two hands can be compared.
pub proof fn lemma_at_most_total(a: HandValue, b: HandValue)
    ensures
        at_most(a, b) || at_most(b, a),
{
    reveal(at_most);
    lemma_compare_antisymmetric(a, b);
}

/// Whether hand `a` beats hand `b`.
pub fn beats(a: &ClassifiedHand, b: &ClassifiedHand) -> (yes: bool)
    ensures
        yes == !at_most(a@, b@),
{
    proof {
        reveal(at_most);
    }
    matches!(compare(a, b), Ordering::Greater)
}

/// Keeps the better of two classified hands, the first where they tie.
pub fn better_of(best: ClassifiedHand, candidate: ClassifiedHand) -> (kept: ClassifiedHand)
    ensures
        at_most(best@, kept@),
        at_most(candidate@, kept@),
        kept@ == best@ || kept@ == candidate@,
{
    proof {
        reveal(at_most);
        lemma_compare_antisymmetric(candidate@, best@);
        lemma_compare_reflexive(best@);
        lemma_compare_reflexive(candidate@);
    }
    match compare(&candidate, &best) {
        Ordering::Greater => candidate,
        _ => best,
    }
}

} // verus!
