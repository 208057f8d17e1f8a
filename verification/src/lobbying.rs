//! Lobbying a country's government on behalf of the dynasty head: whether
//! the request is admissible and whose wealth pays for it. The cost and the
//! shift of the government component are fractional and applied by the
//! host, which also refuses a head who cannot afford the cost.

use vstd::prelude::*;
use crate::dynasty::MemberRecord;
use crate::favor::contains_id;
use crate::world::EntityId;

verus! {

/// Why a lobbying request was refused before any wealth was considered.
#[derive(Debug, Clone, Copy, PartialEq, Eq, Structural)]
pub enum LobbyRefusal {
    /// No country has this id.
    UnknownCountry(EntityId),
    /// The dynasty has no living member who is its head.
    HeadUnavailable,
}

/// The position of the first living member with id `head_id`, searching
/// from `k`.
pub open spec fn living_head_index(members: Seq<MemberRecord>, head_id: EntityId, k: int) -> Option<int>
    decreases members.len() - k,
{
    if k < 0 || k >= members.len() {
        None
    } else if members[k].id == head_id && members[k].alive {
        Some(k)
    } else {
        living_head_index(members, head_id, k + 1)
    }
}

/// Who pays for lobbying country `country_id`: the position of the living
/// head among `members`. Refused when no country has that id (checked
/// first), or when the head is dead or missing.
pub fn lobbying_head(
    country_ids: &[EntityId],
    members: &[MemberRecord],
    head_character_id: EntityId,
    country_id: EntityId,
) -> (r: Result<usize, LobbyRefusal>)
    ensures
        !country_ids@.contains(country_id) ==> r == Err::<usize, LobbyRefusal>(LobbyRefusal::UnknownCountry(country_id)),
        country_ids@.contains(country_id) ==> match living_head_index(members@, head_character_id, 0) {
            Some(k) => r == Ok::<usize, LobbyRefusal>(k as usize),
            None => r == Err::<usize, LobbyRefusal>(LobbyRefusal::HeadUnavailable),
        },
{
    if !contains_id(country_ids, country_id) {
        return Err(LobbyRefusal::UnknownCountry(country_id));
    }
    let mut k: usize = 0;
    while k < members.len()
        invariant
            k <= members@.len(),
            country_ids@.contains(country_id),
            living_head_index(members@, head_character_id, 0) == living_head_index(members@, head_character_id, k as int),
        decreases members@.len() - k,
    {
        if members[k].id == head_character_id && members[k].alive {
            return Ok(k);
        }
        k += 1;
    }
    Err(LobbyRefusal::HeadUnavailable)
}

} // verus!
