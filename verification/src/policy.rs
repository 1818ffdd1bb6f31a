//! Policy gate: decides, from a uid alone, whether quota policy applies.

use vstd::prelude::*;

verus! {

/// Principals with a uid below this bound are system accounts and are never
/// subject to quota policy.
pub const MIN_POLICY_UID: u32 = 1000;

/// True exactly when quota policy applies to the given uid.
pub open spec fn spec_policy_applies(uid: u32) -> bool {
    uid >= MIN_POLICY_UID
}

/// Decide whether the principal with this uid is subject to quota policy.
/// System accounts (uid below `MIN_POLICY_UID`) are exempt.
pub fn policy_applies(uid: u32) -> (r: bool)
    ensures
        r == spec_policy_applies(uid),
{
    uid >= MIN_POLICY_UID
}

} // verus!
