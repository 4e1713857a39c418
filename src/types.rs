use vstd::prelude::*;

verus! {

/// Largest number of trustees that any account may name.
pub const MAX_TRUSTEES: u32 = 10;

/// Smallest admissible recovery threshold.
pub const MIN_THRESHOLD: u8 = 2;

/// Largest admissible recovery threshold.
pub const MAX_THRESHOLD: u8 = 10;

/// Blocks between the initiation of a recovery and its earliest execution
/// (about a day of six-second blocks).
pub const DEFAULT_RECOVERY_DELAY: u32 = 14400;

/// Largest length of an identity's auxiliary blob and of a trustee's share.
pub const MAX_BLOB_LEN: usize = 1024;

/// Parameters that the host chooses for the engine.
#[derive(Clone, Copy, Debug, PartialEq, Eq)]
pub struct Config {
    /// How many trustees one account may name; at most `MAX_TRUSTEES`.
    pub max_trustees: u32,
    /// Amount reserved from an account's balance when it configures recovery.
    pub recovery_deposit: u128,
}

/// An account's identity: its DID, its current public key and a free-form blob.
#[derive(Clone, Debug, PartialEq, Eq)]
pub struct AuraIdRecord {
    pub did: [u8; 32],
    pub public_key: [u8; 32],
    pub recovery_config: Vec<u8>,
    pub created: u32,
}

/// An account's recovery policy.
#[derive(Clone, Copy, Debug, PartialEq, Eq)]
pub struct RecoveryConfig {
    /// Trustee confirmations needed to execute a recovery.
    pub threshold: u8,
    /// Number of trustees currently named.
    pub total_trustees: u8,
    /// Blocks between initiation and earliest execution.
    pub delay_period: u32,
    pub active: bool,
    /// Amount reserved from the owner's balance for this policy.
    pub deposit: u128,
}

/// What a trustee holds for an owner.
#[derive(Clone, Debug, PartialEq, Eq)]
pub struct TrusteeShare {
    pub trustee_account: u64,
    /// Opaque encrypted recovery material.
    pub share: Vec<u8>,
    /// Whether the trustee confirmed the recovery in flight.
    pub confirmed: bool,
}

/// A pending claim on a lost account.
#[derive(Clone, Copy, Debug, PartialEq, Eq)]
pub struct RecoveryRequest {
    pub requesting_account: u64,
    pub new_public_key: [u8; 32],
    pub submitted_shares: u8,
    /// First block height at which the recovery may execute.
    pub execute_at: u32,
    pub completed: bool,
}

/// Free and reserved balance of one account.
#[derive(Clone, Copy, Debug, PartialEq, Eq)]
pub struct AccountData {
    pub free: u128,
    pub reserved: u128,
}

/// Entries of the engine's event log.
#[derive(Clone, Copy, Debug, PartialEq, Eq)]
pub enum Event {
    AuraIdCreated { account: u64, did: [u8; 32] },
    RecoveryConfigured { account: u64, threshold: u8, total_trustees: u8 },
    TrusteeAdded { account: u64, trustee: u64 },
    TrusteeRemoved { account: u64, trustee: u64 },
    RecoveryInitiated { lost_account: u64, requesting_account: u64 },
    RecoveryShareProvided { lost_account: u64, trustee: u64 },
    RecoveryExecuted { lost_account: u64, new_account: u64 },
    RecoveryCancelled { account: u64 },
    RecoveryDeactivated { account: u64 },
}

/// Why an operation was rejected. A rejected operation changes nothing.
#[derive(Clone, Copy, Debug, PartialEq, Eq)]
pub enum Error {
    AuraIdAlreadyExists,
    AuraIdNotFound,
    RecoveryConfigTooLarge,
    DidCollision,
    InvalidRecoveryThreshold,
    TooManyTrustees,
    TrusteeNotFound,
    AlreadyTrustee,
    RecoveryAlreadyConfigured,
    RecoveryNotConfigured,
    RecoveryAlreadyActive,
    RecoveryNotActive,
    AlreadyConfirmed,
    ShareTooLarge,
    InsufficientShares,
    DelayPeriodNotPassed,
    InsufficientBalance,
    NotAuthorized,
}

} // verus!
