use vstd::prelude::*;

use crate::pallet::Pallet;
use crate::types::{Error, MAX_THRESHOLD, MIN_THRESHOLD};

verus! {

/// An account that already has an identity cannot create a second one: the
/// attempt fails with `AuraIdAlreadyExists`, whatever key and blob it offers,
/// and (as every rejected operation) leaves the state, and so the first
/// record, unchanged.
pub proof fn lemma_second_identity_rejected(p: Pallet, who: u64, public_key: Seq<u8>, blob_len: int)
    requires
        p.identities().contains_key(who),
    ensures
        p.create_aura_id_error(who, public_key, blob_len) == Some(Error::AuraIdAlreadyExists),
{
}

/// For an account without a recovery policy, a threshold outside
/// `[MIN_THRESHOLD, MAX_THRESHOLD]` is always rejected with
/// `InvalidRecoveryThreshold`, whatever the trustees; being rejected, the call
/// reserves nothing.
pub proof fn lemma_threshold_out_of_range_rejected(p: Pallet, who: u64, threshold: u8, trustees: Seq<u64>)
    requires
        !p.recovery_configs().contains_key(who),
        threshold < MIN_THRESHOLD || threshold > MAX_THRESHOLD,
    ensures
        p.setup_recovery_error(who, threshold, trustees) == Some(Error::InvalidRecoveryThreshold),
{
}

/// In every reachable state each policy is active and its threshold never
/// exceeds its number of trustees: removing trustees lowers the threshold
/// rather than leaving it out of reach.
pub proof fn lemma_threshold_within_trustees(p: Pallet, owner: u64)
    requires
        p.wf(),
        p.recovery_configs().contains_key(owner),
    ensures
        p.recovery_configs()[owner].active,
        p.recovery_configs()[owner].threshold <= p.recovery_configs()[owner].total_trustees,
{
    p.lemma_config_bounds(owner);
}

/// Initiating a recovery on an account with an identity but no policy fails
/// with `RecoveryNotConfigured`.
pub proof fn lemma_initiate_without_policy_rejected(p: Pallet, lost_account: u64)
    requires
        p.identities().contains_key(lost_account),
        !p.recovery_configs().contains_key(lost_account),
    ensures
        p.initiate_recovery_error(lost_account) == Some(Error::RecoveryNotConfigured),
{
}

/// Initiating a recovery on an account that already has one pending fails
/// with `RecoveryAlreadyActive`.
pub proof fn lemma_initiate_twice_rejected(p: Pallet, lost_account: u64)
    requires
        p.wf(),
        p.active_recoveries().contains_key(lost_account),
    ensures
        p.initiate_recovery_error(lost_account) == Some(Error::RecoveryAlreadyActive),
{
    p.lemma_pending_request_bounds(lost_account);
}

/// A recovery with enough confirmations still cannot execute before the
/// height its request fixed: the attempt fails with `DelayPeriodNotPassed`.
pub proof fn lemma_execute_waits_for_delay(p: Pallet, lost_account: u64)
    requires
        p.active_recoveries().contains_key(lost_account),
        !p.active_recoveries()[lost_account].completed,
        p.active_recoveries()[lost_account].submitted_shares >= p.recovery_configs()[lost_account].threshold,
        p.height() < p.active_recoveries()[lost_account].execute_at,
    ensures
        p.execute_recovery_error(lost_account) == Some(Error::DelayPeriodNotPassed),
{
}

} // verus!
