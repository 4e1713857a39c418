//! A threshold social-recovery identity engine.
//!
//! Accounts bind a self-certifying identifier (a DID, the BLAKE2-256 digest of
//! a public key) to themselves, and may name a k-of-n group of trustees who can
//! jointly authorise the replacement of a lost signing key after a delay.

pub mod chain_spec;
pub mod currency;
pub mod did;
pub mod laws;
pub mod model;
pub mod pallet;
pub mod rpc;
pub mod types;

pub use chain_spec::Extensions;
pub use currency::{deposit, MICROUNIT, MILLIUNIT, PLANCK, UNIT};
pub use did::bytes32_eq;
pub use pallet::Pallet;
pub use rpc::AuraIdentityRpcImpl;
pub use types::{
    AccountData, AuraIdRecord, Config, Error, Event, RecoveryConfig, RecoveryRequest,
    TrusteeShare, DEFAULT_RECOVERY_DELAY, MAX_BLOB_LEN, MAX_THRESHOLD, MAX_TRUSTEES, MIN_THRESHOLD,
};
