//! The player's dynasty: its founder, member summaries for the dynasty
//! panel, and the trait rule every member must satisfy.

use vstd::prelude::*;
use crate::portrait::{PortraitDescriptor, descriptor_from_stream, portrait_domain};
use crate::rng::{SimRng, seeded_state, stream_value};
use crate::traits::{self, Trait, distinct_traits, traits_from_stream, traits_domain};
use crate::world::EntityId;

verus! {

/// A member's role in the dynasty.
#[derive(Debug, Clone, Copy, PartialEq, Eq, Structural)]
pub enum DynastyRole {
    Head,
    Member,
}

/// A single dynasty member's row in the dynasty panel.
#[derive(Debug, Clone, PartialEq)]
pub struct DynastyMemberSummary {
    pub id: EntityId,
    pub name: String,
    pub age_years: u32,
    pub alive: bool,
    pub role: DynastyRole,
}

/// What the dynasty panel reads of a member.
#[derive(Debug, Clone)]
pub struct MemberRecord {
    pub id: EntityId,
    pub name: String,
    pub age_years: u32,
    pub alive: bool,
}

/// The role of the member with id `id` when the head has id `head_id`.
pub open spec fn role_of(id: EntityId, head_id: EntityId) -> DynastyRole {
    if id == head_id { DynastyRole::Head } else { DynastyRole::Member }
}

/// `summary` is `member`'s row when the head has id `head_id`.
pub open spec fn summarizes(summary: DynastyMemberSummary, member: MemberRecord, head_id: EntityId) -> bool {
    &&& summary.id == member.id
    &&& summary.name@ == member.name@
    &&& summary.age_years == member.age_years
    &&& summary.alive == member.alive
    &&& summary.role == role_of(member.id, head_id)
}

/// One row per member, in member order, marking the head by id.
pub fn member_summaries(members: &[MemberRecord], head_character_id: EntityId) -> (rows: Vec<DynastyMemberSummary>)
    ensures
        rows@.len() == members@.len(),
        forall|i: int| 0 <= i < members@.len() ==> summarizes(#[trigger] rows@[i], members@[i], head_character_id),
{
    let mut rows: Vec<DynastyMemberSummary> = Vec::new();
    let mut i: usize = 0;
    while i < members.len()
        invariant
            i <= members@.len(),
            rows@.len() == i,
            forall|j: int| 0 <= j < i ==> summarizes(#[trigger] rows@[j], members@[j], head_character_id),
        decreases members@.len() - i,
    {
        let member = &members[i];
        let role = if member.id == head_character_id { DynastyRole::Head } else { DynastyRole::Member };
        rows.push(DynastyMemberSummary {
            id: member.id,
            name: member.name.clone(),
            age_years: member.age_years,
            alive: member.alive,
            role,
        });
        i += 1;
    }
    rows
}

/// Whether no trait occurs twice in `traits` (a member's traits must be
/// distinct).
pub fn has_no_duplicate_traits(traits: &[Trait]) -> (b: bool)
    ensures
        b == distinct_traits(traits@),
{
    let mut i: usize = 0;
    while i < traits.len()
        invariant
            i <= traits@.len(),
            forall|a: int, c: int| 0 <= a < i && a < c < traits@.len() ==> traits@[a] != traits@[c],
        decreases traits@.len() - i,
    {
        let mut j: usize = i + 1;
        while j < traits.len()
            invariant
                i < traits@.len(),
                i + 1 <= j <= traits@.len(),
                forall|a: int, c: int| 0 <= a < i && a < c < traits@.len() ==> traits@[a] != traits@[c],
                forall|c: int| i < c < j ==> traits@[i as int] != traits@[c],
            decreases traits@.len() - j,
        {
            if traits[i] == traits[j] {
                return false;
            }
            j += 1;
        }
        i += 1;
    }
    true
}

/// The dynasty's founder as a new game creates them: member 1, aged 28 to
/// 47, living in `home_city`, with the portrait and traits of their own
/// streams. Their starting wealth, in `[1000, 10000)`, comes from
/// `wealth_draw`.
#[derive(Debug, Clone, PartialEq, Eq)]
pub struct FounderPlan {
    pub id: EntityId,
    pub age_years: u32,
    pub wealth_draw: u64,
    pub home_city: Option<EntityId>,
    pub portrait: PortraitDescriptor,
    pub traits: Vec<Trait>,
}

/// The founder of a new game from `world_seed`: the age and wealth draws
/// are the first two of the `"dynasty"` stream.
pub fn plan_founder(world_seed: u64, home_city: Option<EntityId>) -> (f: FounderPlan)
    ensures
        f.id == 1,
        f.age_years == 28 + stream_value(seeded_state(world_seed, "dynasty"@), 0) % 20,
        f.wealth_draw == stream_value(seeded_state(world_seed, "dynasty"@), 1),
        f.home_city == home_city,
        f.portrait == descriptor_from_stream(seeded_state(world_seed, portrait_domain(1))),
        f.traits@ == traits_from_stream(seeded_state(world_seed, traits_domain(1))),
{
    let mut rng = SimRng::from_seed(world_seed, "dynasty");
    proof {
        reveal_with_fuel(crate::rng::xoshiro_advance, 3);
    }
    let age_years = 28 + rng.next_below(20);
    let wealth_draw = rng.next_u64();
    FounderPlan {
        id: 1,
        age_years,
        wealth_draw,
        home_city,
        portrait: PortraitDescriptor::generate_for_character(world_seed, 1),
        traits: traits::generate_for_character(world_seed, 1),
    }
}

} // verus!
