//! Favors between dynasty members: who may owe whom. A favor's magnitude is
//! fractional and lives outside this crate; what is decided here is whether
//! a favor may be granted at all, and why not.

use vstd::prelude::*;
use crate::world::EntityId;

verus! {

/// Why granting a favor was refused.
#[derive(Debug, Clone, Copy, PartialEq, Eq, Structural)]
pub enum GrantFavorError {
    /// `creditor_id` doesn't resolve to any dynasty member.
    UnknownCreditor(EntityId),
    /// `debtor_id` doesn't resolve to any dynasty member.
    UnknownDebtor(EntityId),
    /// The ids resolved, but the favor would still be invalid: its
    /// magnitude is not a finite positive number, or it names the same
    /// character on both sides.
    InvalidFavor,
}

/// Whether a favor of a magnitude for which `magnitude_is_positive` holds
/// (finite and greater than zero), owed by `debtor_id` to `creditor_id`,
/// may be granted in a dynasty whose members have ids `member_ids`. The
/// creditor is checked first, then the debtor, then the favor itself.
pub fn vet_favor(
    member_ids: &[EntityId],
    creditor_id: EntityId,
    debtor_id: EntityId,
    magnitude_is_positive: bool,
) -> (r: Result<(), GrantFavorError>)
    ensures
        !member_ids@.contains(creditor_id) ==> r == Err::<(), GrantFavorError>(GrantFavorError::UnknownCreditor(creditor_id)),
        member_ids@.contains(creditor_id) && !member_ids@.contains(debtor_id)
            ==> r == Err::<(), GrantFavorError>(GrantFavorError::UnknownDebtor(debtor_id)),
        member_ids@.contains(creditor_id) && member_ids@.contains(debtor_id) ==> (r == if magnitude_is_positive && creditor_id != debtor_id {
            Ok::<(), GrantFavorError>(())
        } else {
            Err(GrantFavorError::InvalidFavor)
        }),
        // A granted favor never names a character who is not a member, nor
        // the same character twice.
        r is Ok ==> member_ids@.contains(creditor_id) && member_ids@.contains(debtor_id) && creditor_id != debtor_id,
{
    if !contains_id(member_ids, creditor_id) {
        return Err(GrantFavorError::UnknownCreditor(creditor_id));
    }
    if !contains_id(member_ids, debtor_id) {
        return Err(GrantFavorError::UnknownDebtor(debtor_id));
    }
    if magnitude_is_positive && creditor_id != debtor_id {
        Ok(())
    } else {
        Err(GrantFavorError::InvalidFavor)
    }
}

/// Whether `id` occurs in `ids`.
pub fn contains_id(ids: &[EntityId], id: EntityId) -> (found: bool)
    ensures
        found == ids@.contains(id),
{
    let mut i: usize = 0;
    while i < ids.len()
        invariant
            i <= ids@.len(),
            forall|k: int| 0 <= k < i ==> ids@[k] != id,
        decreases ids@.len() - i,
    {
        if ids[i] == id {
            assert(ids@[i as int] == id);
            return true;
        }
        i += 1;
    }
    false
}

} // verus!
