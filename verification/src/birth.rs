//! A yearly chance for the living, fertile dynasty head to have a child,
//! drawn from its own stream (domain `"dynasty:birth:<head_id>:<year>"`),
//! so the same seed, head and year always give the same outcome.

use vstd::prelude::*;
use crate::portrait::{PortraitDescriptor, descriptor_from_stream, portrait_domain};
use crate::rng::{SimRng, RngState, stream_value, seeded_state, threshold_for_chance, lemma_top_bits_below};
use crate::text::{tagged, decimal, decimal_string};
use crate::traits::{self, Trait, traits_from_stream, traits_domain};
use crate::world::{EntityId, next_entity_id};

verus! {

/// Youngest age at which the head is considered fertile.
pub const MIN_FERTILE_AGE: u32 = 18;
/// Oldest age at which the head is still considered fertile.
pub const MAX_FERTILE_AGE: u32 = 45;

/// The yearly birth chance as a threshold over `2^53`
/// (`ceil(0.18 * 2^53)`, a probability of 0.18).
pub const ANNUAL_BIRTH_THRESHOLD: u64 = 1621295865853379;

pub const CHILD_NAME_COUNT: usize = 10;

pub open spec fn child_name_at(i: int) -> Seq<char> {
    if i == 0 { "Ari"@ } else if i == 1 { "Bren"@ } else if i == 2 { "Cael"@ } else if i == 3 { "Dara"@ }
    else if i == 4 { "Elin"@ } else if i == 5 { "Fenn"@ } else if i == 6 { "Iris"@ } else if i == 7 { "Joss"@ }
    else if i == 8 { "Kiran"@ } else { "Lior"@ }
}

fn child_name(i: usize) -> (name: &'static str)
    ensures
        name@ == child_name_at(i as int),
{
    match i {
        0 => "Ari",
        1 => "Bren",
        2 => "Cael",
        3 => "Dara",
        4 => "Elin",
        5 => "Fenn",
        6 => "Iris",
        7 => "Joss",
        8 => "Kiran",
        _ => "Lior",
    }
}

/// The domain tag of the birth stream for `head_id` in `year`.
pub open spec fn birth_domain_view(head_id: EntityId, year: u64) -> Seq<char> {
    "dynasty:birth:"@ + decimal(head_id as nat) + ":"@ + decimal(year as nat)
}

/// `"dynasty:birth:<head_id>:<year>"`.
pub fn birth_domain(head_id: EntityId, year: u64) -> (domain: String)
    ensures
        domain@ == birth_domain_view(head_id, year),
{
    let mut domain = tagged("dynasty:birth:", head_id as u64);
    domain.append(":");
    let digits = decimal_string(year);
    domain.append(digits.as_str());
    domain
}

/// The largest of `ids` (0 when empty).
pub open spec fn max_id(ids: Seq<EntityId>, n: int) -> int
    decreases n,
{
    if n <= 0 {
        0
    } else {
        let m = max_id(ids, n - 1);
        if ids[n - 1] as int > m { ids[n - 1] as int } else { m }
    }
}

/// The next id for a new dynasty member: one past the highest current id.
pub fn next_character_id(member_ids: &[EntityId]) -> (id: EntityId)
    requires
        max_id(member_ids@, member_ids@.len() as int) < u32::MAX,
    ensures
        id as int == max_id(member_ids@, member_ids@.len() as int) + 1,
        !member_ids@.contains(id),
{
    next_entity_id(member_ids)
}

/// What the birth check reads of the dynasty head.
#[derive(Debug, Clone, Copy, PartialEq, Eq, Structural)]
pub struct HeadRecord {
    pub id: EntityId,
    pub alive: bool,
    pub age_years: u32,
    pub home_city: Option<EntityId>,
}

/// A child born this year: everything about the new member but their
/// starting wealth, which is zero.
#[derive(Debug, Clone, PartialEq)]
pub struct ChildPlan {
    pub id: EntityId,
    pub name: &'static str,
    /// Born in the head's home city.
    pub home_city: Option<EntityId>,
    pub portrait: PortraitDescriptor,
    pub traits: Vec<Trait>,
}

/// Whether `head` can have a child this year: alive and within the fertile
/// age range.
pub open spec fn fertile(head: HeadRecord) -> bool {
    head.alive && MIN_FERTILE_AGE <= head.age_years <= MAX_FERTILE_AGE
}

/// Whether the birth stream in state `s` grants a child.
pub open spec fn birth_drawn(s: RngState) -> bool {
    (stream_value(s, 0) >> 11u64) < ANNUAL_BIRTH_THRESHOLD
}

/// Whether the yearly check grants `head` a child: a fertile head whose
/// birth stream for `year` draws a birth.
pub open spec fn child_due(world_seed: u64, head: Option<HeadRecord>, year: u64) -> bool {
    head matches Some(h) && fertile(h) && birth_drawn(seeded_state(world_seed, birth_domain_view(h.id, year)))
}

/// Whether a child is born this year ([`child_due`]), without planning it:
/// a child needs a fresh member id, so a caller checks that one is free
/// when this holds.
pub fn child_is_due(world_seed: u64, head: Option<HeadRecord>, year: u64) -> (due: bool)
    ensures
        due == child_due(world_seed, head, year),
{
    let h = match head {
        None => {
            return false;
        },
        Some(h) => h,
    };
    if !h.alive || !(MIN_FERTILE_AGE <= h.age_years && h.age_years <= MAX_FERTILE_AGE) {
        return false;
    }
    let domain = birth_domain(h.id, year);
    let mut rng = SimRng::from_seed(world_seed, domain.as_str());
    proof {
        reveal_with_fuel(crate::rng::xoshiro_advance, 2);
    }
    rng.chance_scaled(ANNUAL_BIRTH_THRESHOLD)
}

/// The yearly birth check, deterministic in `world_seed`, the head and
/// `year`. No child without a head, or with a dead or infertile head;
/// otherwise a child with probability 0.18, with the next free member id,
/// a given name drawn from the same stream, the head's home city, and the
/// portrait and traits of its own per-character streams.
pub fn plan_birth(world_seed: u64, head: Option<HeadRecord>, member_ids: &[EntityId], year: u64) -> (plan: Option<ChildPlan>)
    requires
        child_due(world_seed, head, year) ==> max_id(member_ids@, member_ids@.len() as int) < u32::MAX,
    ensures
        plan is Some <==> child_due(world_seed, head, year),
        match head {
            None => plan is None,
            Some(h) => if !fertile(h) {
                plan is None
            } else {
                let s = seeded_state(world_seed, birth_domain_view(h.id, year));
                if !birth_drawn(s) {
                    plan is None
                } else {
                    plan matches Some(child) && {
                        &&& child.id as int == max_id(member_ids@, member_ids@.len() as int) + 1
                        &&& !member_ids@.contains(child.id)
                        &&& child.name@ == child_name_at((stream_value(s, 1) % 10) as int)
                        &&& child.home_city == h.home_city
                        &&& child.portrait == descriptor_from_stream(seeded_state(world_seed, portrait_domain(child.id)))
                        &&& child.traits@ == traits_from_stream(seeded_state(world_seed, traits_domain(child.id)))
                    }
                }
            },
        },
{
    let h = match head {
        None => {
            return None;
        },
        Some(h) => h,
    };
    if !h.alive || !(MIN_FERTILE_AGE <= h.age_years && h.age_years <= MAX_FERTILE_AGE) {
        return None;
    }
    let domain = birth_domain(h.id, year);
    let mut rng = SimRng::from_seed(world_seed, domain.as_str());
    let ghost s = rng@;
    proof {
        reveal_with_fuel(crate::rng::xoshiro_advance, 2);
    }
    if !rng.chance_scaled(ANNUAL_BIRTH_THRESHOLD) {
        return None;
    }
    let child_id = next_character_id(member_ids);
    let name = child_name(rng.pick_index(CHILD_NAME_COUNT));
    Some(ChildPlan {
        id: child_id,
        name,
        home_city: h.home_city,
        portrait: PortraitDescriptor::generate_for_character(world_seed, child_id),
        traits: traits::generate_for_character(world_seed, child_id),
    })
}

/// The yearly birth roll: a child is due exactly when the head is alive,
/// aged 18 to 45, and the first draw of the head's birth stream for that
/// year, read as a fraction of `2^64`, is below the birth threshold over
/// `2^53`, which stands for an 18% chance.
pub proof fn lemma_a_child_is_due_with_the_birth_chance(world_seed: u64, head: Option<HeadRecord>, year: u64)
    ensures
        threshold_for_chance(ANNUAL_BIRTH_THRESHOLD, 18, 100),
        child_due(world_seed, head, year) <==> (head matches Some(h) && h.alive && 18 <= h.age_years <= 45
            && (stream_value(seeded_state(world_seed, birth_domain_view(h.id, year)), 0) as int)
                < (ANNUAL_BIRTH_THRESHOLD as int) * 2048),
{
    if let Some(h) = head {
        lemma_top_bits_below(stream_value(seeded_state(world_seed, birth_domain_view(h.id, year)), 0), ANNUAL_BIRTH_THRESHOLD);
    }
}

} // verus!
