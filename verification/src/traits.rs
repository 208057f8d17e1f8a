//! Character traits: a small fixed set of personality tags that other
//! systems (career progression, events) read, drawn deterministically from a
//! per-character stream (domain `"traits:<id>"`).

use vstd::prelude::*;
use crate::rng::{SimRng, RngState, stream_value, xoshiro_advance, seeded_state, threshold_for_chance, lemma_top_bits_below};
use crate::text::{tagged, decimal};
use crate::world::EntityId;

verus! {

#[derive(Debug, Clone, Copy, PartialEq, Eq, Hash, Structural)]
pub enum Trait {
    /// Pushes harder for career advancement.
    Ambitious,
    /// Spends less, saves more.
    Frugal,
    /// Prone to poor health, missing opportunities as a result.
    Sickly,
    /// Well liked, smooths social and career interactions.
    Charismatic,
    /// Consistent, reliable work, noticed by superiors.
    Diligent,
    /// Takes bigger risks, for better or worse.
    Reckless,
}

pub const TRAIT_COUNT: usize = 6;

/// The maximum number of traits a single character can have. A character
/// always has at least one.
pub const MAX_TRAITS_PER_CHARACTER: usize = 2;

/// The chance of a second, distinct trait, as a threshold over `2^53`
/// (`ceil(0.3 * 2^53)`, a probability of 0.3).
pub const SECOND_TRAIT_THRESHOLD: u64 = 2702159776422298;

pub open spec fn trait_at(i: int) -> Trait {
    if i == 0 { Trait::Ambitious } else if i == 1 { Trait::Frugal } else if i == 2 { Trait::Sickly }
    else if i == 3 { Trait::Charismatic } else if i == 4 { Trait::Diligent } else { Trait::Reckless }
}

/// Every trait, in its stable order.
pub fn all_traits() -> (all: [Trait; 6])
    ensures
        forall|i: int| 0 <= i < 6 ==> all@[i] == trait_at(i),
{
    [Trait::Ambitious, Trait::Frugal, Trait::Sickly, Trait::Charismatic, Trait::Diligent, Trait::Reckless]
}

fn pick_trait(i: usize) -> (t: Trait)
    ensures
        t == trait_at(i as int),
{
    match i {
        0 => Trait::Ambitious,
        1 => Trait::Frugal,
        2 => Trait::Sickly,
        3 => Trait::Charismatic,
        4 => Trait::Diligent,
        _ => Trait::Reckless,
    }
}

/// Whether a stream in state `s` grants a second trait.
pub open spec fn draws_second_trait(s: RngState) -> bool {
    (stream_value(s, 1) >> 11u64) < SECOND_TRAIT_THRESHOLD
}

/// The traits drawn from a stream in state `s`: a uniform first trait, then
/// with probability 0.3 a second one chosen uniformly among the other five
/// (by a random offset of 1 to 5 from the first).
pub open spec fn traits_from_stream(s: RngState) -> Seq<Trait> {
    let first = (stream_value(s, 0) % 6) as int;
    if draws_second_trait(s) {
        seq![trait_at(first), trait_at((first + 1 + (stream_value(s, 2) % 5) as int) % 6)]
    } else {
        seq![trait_at(first)]
    }
}

/// The domain tag of a character's trait stream.
pub open spec fn traits_domain(character_id: EntityId) -> Seq<char> {
    "traits:"@ + decimal(character_id as nat)
}

/// No trait occurs twice in `traits`.
pub open spec fn distinct_traits(traits: Seq<Trait>) -> bool {
    forall|i: int, j: int| 0 <= i < j < traits.len() ==> traits[i] != traits[j]
}

/// Draw a character's traits from an already-derived stream: at least one,
/// at most [`MAX_TRAITS_PER_CHARACTER`], never a duplicate.
pub fn generate(rng: &mut SimRng) -> (traits: Vec<Trait>)
    ensures
        traits@ == traits_from_stream(old(rng)@),
        final(rng)@ == xoshiro_advance(old(rng)@, if draws_second_trait(old(rng)@) { 3 } else { 2 }),
        1 <= traits@.len() <= MAX_TRAITS_PER_CHARACTER,
        distinct_traits(traits@),
{
    let ghost s = rng@;
    proof {
        reveal_with_fuel(xoshiro_advance, 4);
    }
    let first_index = rng.pick_index(TRAIT_COUNT);
    let mut traits: Vec<Trait> = Vec::new();
    traits.push(pick_trait(first_index));
    if rng.chance_scaled(SECOND_TRAIT_THRESHOLD) {
        let offset = 1 + rng.pick_index(TRAIT_COUNT - 1);
        let second_index = (first_index + offset) % TRAIT_COUNT;
        traits.push(pick_trait(second_index));
        assert(traits@ =~= traits_from_stream(s));
    } else {
        assert(traits@ =~= traits_from_stream(s));
    }
    traits
}

/// The traits for `character_id` under `world_seed`, from the character's
/// own stream (domain `"traits:<id>"`), independent of every other stream.
pub fn generate_for_character(world_seed: u64, character_id: EntityId) -> (traits: Vec<Trait>)
    ensures
        traits@ == traits_from_stream(seeded_state(world_seed, traits_domain(character_id))),
        1 <= traits@.len() <= MAX_TRAITS_PER_CHARACTER,
        distinct_traits(traits@),
{
    let domain = tagged("traits:", character_id as u64);
    let mut rng = SimRng::from_seed(world_seed, domain.as_str());
    generate(&mut rng)
}

/// A character has two traits with a 30% chance: exactly when the second
/// draw of their trait stream, as a fraction of `2^64`, is below the
/// second-trait threshold over `2^53`, which stands for 0.3; the second
/// trait is then different from the first.
pub proof fn lemma_second_trait_follows_its_chance(s: RngState)
    ensures
        threshold_for_chance(SECOND_TRAIT_THRESHOLD, 3, 10),
        traits_from_stream(s).len() == 2 <==> (stream_value(s, 1) as int) < (SECOND_TRAIT_THRESHOLD as int) * 2048,
        traits_from_stream(s).len() == 2 ==> traits_from_stream(s)[0] != traits_from_stream(s)[1],
{
    lemma_top_bits_below(stream_value(s, 1), SECOND_TRAIT_THRESHOLD);
    let first = (stream_value(s, 0) % 6) as int;
    let second = (first + 1 + (stream_value(s, 2) % 5) as int) % 6;
    assert(first != second);
}

} // verus!
