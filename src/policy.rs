//! The authorization policy. Roles are ordinals in ascending privilege:
//! 0 Banned, 1 Applicant, 2 Member, 3 Admin, 4 SuperAdmin; a higher value
//! strictly dominates a lower one.
use vstd::prelude::*;

verus! {

pub const ROLE_BANNED: u8 = 0;
pub const ROLE_APPLICANT: u8 = 1;
pub const ROLE_MEMBER: u8 = 2;
pub const ROLE_ADMIN: u8 = 3;
pub const ROLE_SUPER_ADMIN: u8 = 4;

/// Whether an account may remove the membership of `target` (itself when
/// `caller_is_target`): a member may leave unless it is a SuperAdmin; another
/// member may be removed by an Admin or above whose rank is at least the target's.
pub open spec fn leave_or_kick_allowed(caller_role: u8, target_role: u8, caller_is_target: bool) -> bool {
    if caller_is_target {
        caller_role != ROLE_SUPER_ADMIN
    } else {
        caller_role >= ROLE_ADMIN && caller_role >= target_role
    }
}

/// Whether an account may set the role of `target` to `requested_role`:
/// never its own, only as an Admin or above, never against a higher rank and
/// never above its own rank.
pub open spec fn update_role_allowed(
    caller_role: u8,
    target_role: u8,
    caller_is_target: bool,
    requested_role: u8,
) -> bool {
    &&& !caller_is_target
    &&& caller_role >= ROLE_ADMIN
    &&& caller_role >= target_role
    &&& requested_role <= caller_role
}

/// Whether an account may change a group's name or flag: SuperAdmins only.
pub open spec fn update_group_allowed(caller_role: u8) -> bool {
    caller_role == ROLE_SUPER_ADMIN
}

/// An account may join a group exactly when it holds no membership in it yet.
pub fn can_join(existing_role: Option<u8>) -> (r: bool)
    ensures
        r == existing_role.is_none(),
{
    existing_role.is_none()
}

pub fn can_leave_or_kick(caller_role: u8, target_role: u8, caller_is_target: bool) -> (r: bool)
    ensures
        r == leave_or_kick_allowed(caller_role, target_role, caller_is_target),
{
    if caller_is_target {
        caller_role != ROLE_SUPER_ADMIN
    } else {
        caller_role >= ROLE_ADMIN && caller_role >= target_role
    }
}

pub fn can_update_role(caller_role: u8, target_role: u8, caller_is_target: bool, requested_role: u8) -> (r: bool)
    ensures
        r == update_role_allowed(caller_role, target_role, caller_is_target, requested_role),
{
    !caller_is_target && caller_role >= ROLE_ADMIN && caller_role >= target_role
        && requested_role <= caller_role
}

pub fn can_update_group(caller_role: u8) -> (r: bool)
    ensures
        r == update_group_allowed(caller_role),
{
    caller_role == ROLE_SUPER_ADMIN
}

} // verus!
