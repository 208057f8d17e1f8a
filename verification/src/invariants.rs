//! Development-time invariant checks: a violation means a bug, not a game
//! event. The structural check on the dynasty's head lives here; the checks
//! on fractional quantities (population groups, treasuries, wealth) are made
//! by the host.

use vstd::prelude::*;
use crate::world::EntityId;
use crate::favor::contains_id;

verus! {

/// One broken invariant, described for a developer.
#[derive(Debug, Clone, PartialEq, Eq)]
pub struct InvariantViolation(pub String);

/// The violation reported when the dynasty's head is not one of its members.
pub open spec fn dangling_head_message() -> Seq<char> {
    "dynasty head_character_id does not reference an existing member"@
}

/// The dangling-head check: `Some` exactly when `head_character_id` is not
/// among the members' ids.
pub fn check_dynasty_head(member_ids: &[EntityId], head_character_id: EntityId) -> (v: Option<InvariantViolation>)
    ensures
        v is None <==> member_ids@.contains(head_character_id),
        v matches Some(violation) ==> violation.0@ == dangling_head_message(),
{
    if contains_id(member_ids, head_character_id) {
        None
    } else {
        proof {
            reveal_strlit("dynasty head_character_id does not reference an existing member");
        }
        Some(InvariantViolation(String::from_str("dynasty head_character_id does not reference an existing member")))
    }
}

} // verus!
