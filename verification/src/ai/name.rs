//! Every AI has a name and the names are chosen randomly. Moreover, the names also
//! come with a default and with a skill at poker that is better for some names than
//! for others.
//!
//! This file contains that sort of information.

use vstd::prelude::*;
use rand::seq::SliceRandom;

verus! {

/// An enum of names for the AI players.
#[derive(Clone, Copy, Debug)]
pub enum Name {
    /// Charles is a good player and will always win.
    Charles,
    /// John is a decent player and will win most of the time.
    ///
    /// He is the default player.
    John,
    /// Ted is a bad player and will lose most of the time.
    Ted,
    /// Jeffery is a terrible player and will always lose.
    Jeffery,
}

impl Default for Name {
    /// Get the default name of a list of AI players: John.
    fn default() -> (name: Name)
        ensures
            name == Name::John,
    {
        Name::John
    }
}

impl PartialEq for Name {
    /// Compare two names.
    fn eq(&self, other: &Self) -> (same: bool) {
        match self {
            Name::Charles => matches!(other, Name::Charles),
            Name::John => matches!(other, Name::John),
            Name::Ted => matches!(other, Name::Ted),
            Name::Jeffery => matches!(other, Name::Jeffery),
        }
    }
}

impl vstd::std_specs::cmp::PartialEqSpecImpl for Name {
    open spec fn obeys_eq_spec() -> bool {
        true
    }

    open spec fn eq_spec(&self, other: &Self) -> bool {
        *self == *other
    }
}

/// Whether `sample` was drawn from `pool` without repetition: it holds
/// `amount` items, or the whole pool where that is smaller, and its items
/// stand at different places of the pool.
pub open spec fn is_sample_of(sample: Seq<Name>, pool: Seq<Name>, amount: int) -> bool {
    &&& sample.len() == if amount <= pool.len() {
        amount
    } else {
        pool.len() as int
    }
    &&& exists|places: Seq<int>|
        {
            &&& #[trigger] places.len() == sample.len()
            &&& places.no_duplicates()
            &&& forall|i: int|
                0 <= i < places.len() ==> 0 <= #[trigger] places[i] < pool.len() && sample[i]
                    == pool[places[i]]
        }
}

/// The random number generator of the current thread, of the crate `rand`.
/// Nothing is known of what is inside it.
#[verifier::external_type_specification]
#[verifier::external_body]
pub struct ExThreadRng(rand::rngs::ThreadRng);

/// The generator of the current thread, from `rand::thread_rng`.
///
/// Nothing is claimed of it. It is seeded by the operating system on its
/// first use in a thread, and stops the program where the system cannot seed
/// it.
#[verifier::external_body]
fn thread_rng() -> (rng: rand::rngs::ThreadRng) {
    rand::thread_rng()
}

/// Draws names from a pool at random, with `rand`'s
/// `SliceRandom::choose_multiple`.
///
/// Believed of it, not proved: the draw holds `amount` names, or the whole
/// pool where that is smaller, taken from different places of the pool.
/// Which names come, and in which order, is left open.
#[verifier::external_body]
fn choose_multiple(pool: &Vec<Name>, rng: &mut rand::rngs::ThreadRng, amount: usize) -> (sample:
    Vec<Name>)
    ensures
        is_sample_of(sample@, pool@, amount as int),
{
    pool.choose_multiple(rng, amount).cloned().collect()
}

impl Name {
    /// The four names, in the order of their declaration.
    pub open spec fn all_spec() -> Seq<Name> {
        seq![Name::Charles, Name::John, Name::Ted, Name::Jeffery]
    }

    /// The skill that goes with a name: the chance to win, in percent.
    pub open spec fn skill_spec(self) -> int {
        match self {
            Name::Charles => 100,
            Name::John => 75,
            Name::Ted => 25,
            Name::Jeffery => 0,
        }
    }

    /// The name as it is written.
    pub open spec fn text_spec(self) -> Seq<char> {
        match self {
            Name::Charles => "Charles"@,
            Name::John => "John"@,
            Name::Ted => "Ted"@,
            Name::Jeffery => "Jeffery"@,
        }
    }

    /// All the names, in the order of their declaration.
    pub fn all() -> (names: Vec<Name>)
        ensures
            names@ == Name::all_spec(),
    {
        let mut names: Vec<Name> = Vec::new();
        names.push(Name::Charles);
        names.push(Name::John);
        names.push(Name::Ted);
        names.push(Name::Jeffery);
        assert(names@ =~= Name::all_spec());
        names
    }

    /// Walks through all the names, in the order of their declaration.
    pub fn iter() -> (names: std::vec::IntoIter<Name>)
        ensures
            vstd::std_specs::vec::into_iter_elts(names) == Name::all_spec(),
    {
        broadcast use vstd::std_specs::vec::axiom_spec_into_iter;

        Name::all().into_iter()
    }

    /// Output the name of an AI player.
    pub fn to_string(&self) -> (text: String)
        ensures
            text@ == self.text_spec(),
    {
        match self {
            Name::Charles => "Charles".to_owned(),
            Name::John => "John".to_owned(),
            Name::Ted => "Ted".to_owned(),
            Name::Jeffery => "Jeffery".to_owned(),
        }
    }

    /// Get random names from the [`Name`] enum: `amount` of them, or all four
    /// where more are asked for, and no name twice. Which names come is left
    /// to chance.
    pub fn get_random(amount: u8) -> (outcome: Result<Vec<Name>, &'static str>)
        ensures
            outcome.is_ok(),
            is_sample_of(outcome.unwrap()@, Name::all_spec(), amount as int),
            outcome.unwrap()@.len() == if amount <= 4 {
                amount as int
            } else {
                4
            },
            outcome.unwrap()@.no_duplicates(),
    {
        let names = Name::all();
        let mut rng = thread_rng();
        let sample = choose_multiple(&names, &mut rng, amount as usize);
        proof {
            lemma_sample_distinct(sample@, names@, amount as int);
        }
        Ok(sample)
    }

    /// Get the skill of an AI player: a chance to win between 0 and 100.
    pub fn assign_skill(&self) -> (skill: u8)
        ensures
            skill == self.skill_spec(),
            skill <= 100,
    {
        match self {
            Name::Charles => 100,
            Name::John => 75,
            Name::Ted => 25,
            Name::Jeffery => 0,
        }
    }
}

/// A sample drawn from a pool that holds nothing twice holds nothing twice.
pub proof fn lemma_sample_distinct(sample: Seq<Name>, pool: Seq<Name>, amount: int)
    requires
        is_sample_of(sample, pool, amount),
        pool.no_duplicates(),
    ensures
        sample.no_duplicates(),
{
    let places = choose|places: Seq<int>|
        {
            &&& #[trigger] places.len() == sample.len()
            &&& places.no_duplicates()
            &&& forall|i: int|
                0 <= i < places.len() ==> 0 <= #[trigger] places[i] < pool.len() && sample[i]
                    == pool[places[i]]
        };
    assert forall|i: int, j: int|
        0 <= i < sample.len() && 0 <= j < sample.len() && i != j implies sample[i]
        != sample[j] by {
        assert(places[i] != places[j]);
        assert(sample[i] == pool[places[i]]);
        assert(sample[j] == pool[places[j]]);
    }
}

} // verus!
