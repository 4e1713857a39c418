use aura_identity::{
    deposit, AuraIdentityRpcImpl, Config, Error, Event, Extensions, Pallet,
    DEFAULT_RECOVERY_DELAY, MILLIUNIT, UNIT,
};
use std::sync::Arc;

const A: u64 = 1;
const B: u64 = 2;
const C: u64 = 3;
const D: u64 = 4;
const E: u64 = 5;

fn engine() -> Pallet {
    let mut p = Pallet::new(Config { max_trustees: 5, recovery_deposit: 100 });
    for account in 1u64..=6 {
        p.set_balance(account, 1_000);
        let _ = p.create_aura_id(account, [account as u8; 32], vec![]);
    }
    p
}

fn configured() -> Pallet {
    let mut p = engine();
    assert_eq!(p.setup_recovery(A, 2, vec![B, C]), Ok(()));
    p
}

#[test]
fn second_identity_leaves_first_record() {
    let mut p = Pallet::new(Config { max_trustees: 5, recovery_deposit: 100 });
    let did = p.create_aura_id(A, [7u8; 32], vec![9]).unwrap();
    let before = p.get_aura_id(A).unwrap().clone();
    assert_eq!(p.create_aura_id(A, [8u8; 32], vec![]), Err(Error::AuraIdAlreadyExists));
    assert_eq!(p.get_aura_id(A).unwrap(), &before);
    assert_eq!(before.did, did);
    assert_eq!(p.lookup_by_did(&did), Some(A));
}

#[test]
fn did_is_deterministic_and_differs_from_key() {
    let key = [42u8; 32];
    assert_eq!(Pallet::generate_did(&key), Pallet::generate_did(&key));
    assert_ne!(Pallet::generate_did(&key), key);
    assert_ne!(Pallet::generate_did(&[1u8; 32]), Pallet::generate_did(&[2u8; 32]));
}

#[test]
fn created_identity_carries_did_and_height() {
    let mut p = Pallet::new(Config { max_trustees: 5, recovery_deposit: 100 });
    p.set_block_number(17);
    let did = p.create_aura_id(A, [5u8; 32], vec![1, 2]).unwrap();
    assert_eq!(did, Pallet::generate_did(&[5u8; 32]));
    let rec = p.get_aura_id(A).unwrap();
    assert_eq!(rec.did, did);
    assert_eq!(rec.created, 17);
    assert_eq!(p.events(), &vec![Event::AuraIdCreated { account: A, did }]);
}

#[test]
fn blob_too_large_is_rejected() {
    let mut p = Pallet::new(Config { max_trustees: 5, recovery_deposit: 100 });
    assert_eq!(p.create_aura_id(A, [5u8; 32], vec![0u8; 1025]), Err(Error::RecoveryConfigTooLarge));
    assert!(p.create_aura_id(A, [5u8; 32], vec![0u8; 1024]).is_ok());
}

#[test]
fn same_key_for_two_accounts_collides() {
    let mut p = Pallet::new(Config { max_trustees: 5, recovery_deposit: 100 });
    assert!(p.create_aura_id(A, [5u8; 32], vec![]).is_ok());
    assert_eq!(p.create_aura_id(B, [5u8; 32], vec![]), Err(Error::DidCollision));
    assert!(p.get_aura_id(B).is_none());
}

#[test]
fn threshold_out_of_range_changes_nothing() {
    let mut p = engine();
    for t in [0u8, 1, 11, 255] {
        assert_eq!(p.setup_recovery(A, t, vec![B, C]), Err(Error::InvalidRecoveryThreshold));
    }
    assert!(p.get_recovery_config(A).is_none());
    assert_eq!(p.free_balance(A), 1_000);
    assert_eq!(p.reserved_balance(A), 0);
    assert!(p.get_trustee_share(A, B).is_none());
}

#[test]
fn setup_reserves_the_deposit() {
    let p = configured();
    let cfg = p.get_recovery_config(A).unwrap();
    assert_eq!(cfg.total_trustees, 2);
    assert_eq!(cfg.threshold, 2);
    assert_eq!(cfg.deposit, 100);
    assert_eq!(cfg.delay_period, DEFAULT_RECOVERY_DELAY);
    assert_eq!(p.get_recovery_deposit(A), Some(100));
    assert_eq!(p.free_balance(A), 900);
    assert_eq!(p.reserved_balance(A), 100);
    let share = p.get_trustee_share(A, B).unwrap();
    assert_eq!(share.trustee_account, B);
    assert!(share.share.is_empty());
    assert!(!share.confirmed);
    let n = p.events().len();
    assert_eq!(p.events()[n - 3], Event::TrusteeAdded { account: A, trustee: B });
    assert_eq!(p.events()[n - 2], Event::TrusteeAdded { account: A, trustee: C });
    assert_eq!(
        p.events()[n - 1],
        Event::RecoveryConfigured { account: A, threshold: 2, total_trustees: 2 }
    );
}

#[test]
fn setup_errors_in_order() {
    let mut p = configured();
    assert_eq!(p.setup_recovery(A, 2, vec![B, C]), Err(Error::RecoveryAlreadyConfigured));
    assert_eq!(p.setup_recovery(B, 3, vec![A, C]), Err(Error::TooManyTrustees));
    assert_eq!(p.setup_recovery(B, 2, vec![A, C, D, E, 6, 1]), Err(Error::TooManyTrustees));
    assert_eq!(p.setup_recovery(B, 2, vec![A, 99]), Err(Error::AuraIdNotFound));
    assert_eq!(p.setup_recovery(B, 2, vec![A, A]), Err(Error::AlreadyTrustee));
    p.set_balance(B, 99);
    assert_eq!(p.setup_recovery(B, 2, vec![A, C]), Err(Error::InsufficientBalance));
    assert!(p.get_recovery_config(B).is_none());
    assert_eq!(p.free_balance(B), 99);
}

#[test]
fn remove_trustee_clamps_threshold() {
    let mut p = configured();
    assert_eq!(p.remove_trustee(A, C), Ok(()));
    let cfg = p.get_recovery_config(A).unwrap();
    assert_eq!(cfg.total_trustees, 1);
    assert_eq!(cfg.threshold, 1);
    assert!(p.get_trustee_share(A, C).is_none());
    assert!(p.get_trustee_share(A, B).is_some());
}

#[test]
fn trustee_errors() {
    let mut p = configured();
    assert_eq!(p.add_trustee(B, C), Err(Error::RecoveryNotConfigured));
    assert_eq!(p.add_trustee(A, 99), Err(Error::AuraIdNotFound));
    assert_eq!(p.add_trustee(A, B), Err(Error::AlreadyTrustee));
    assert_eq!(p.add_trustee(A, D), Ok(()));
    assert_eq!(p.add_trustee(A, E), Ok(()));
    assert_eq!(p.add_trustee(A, 6), Ok(()));
    assert_eq!(p.get_recovery_config(A).unwrap().total_trustees, 5);
    assert_eq!(p.add_trustee(A, 1), Err(Error::TooManyTrustees));
    assert_eq!(p.remove_trustee(B, C), Err(Error::RecoveryNotConfigured));
    assert_eq!(p.remove_trustee(A, 99), Err(Error::TrusteeNotFound));
}

#[test]
fn initiate_requires_policy_and_no_pending_request() {
    let mut p = configured();
    assert_eq!(p.initiate_recovery(D, B, [9u8; 32]), Err(Error::RecoveryNotConfigured));
    assert_eq!(p.initiate_recovery(D, 99, [9u8; 32]), Err(Error::AuraIdNotFound));
    assert_eq!(p.initiate_recovery(D, A, [9u8; 32]), Ok(()));
    assert_eq!(p.initiate_recovery(E, A, [8u8; 32]), Err(Error::RecoveryAlreadyActive));
    assert_eq!(p.get_active_recovery(A).unwrap().requesting_account, D);
}

#[test]
fn end_to_end_recovery() {
    let mut p = configured();
    let h = 1_000;
    p.set_block_number(h);
    let k = [77u8; 32];
    assert_eq!(p.initiate_recovery(D, A, k), Ok(()));
    let q = p.get_active_recovery(A).unwrap();
    assert_eq!(q.execute_at, h + DEFAULT_RECOVERY_DELAY);
    assert_eq!(q.submitted_shares, 0);
    assert_eq!(q.new_public_key, k);

    assert_eq!(p.execute_recovery(A), Err(Error::InsufficientShares));
    assert_eq!(p.submit_trustee_share(B, A, vec![1, 2, 3]), Ok(()));
    assert_eq!(p.submit_trustee_share(B, A, vec![1]), Err(Error::AlreadyConfirmed));
    assert_eq!(p.submit_trustee_share(D, A, vec![1]), Err(Error::TrusteeNotFound));
    assert_eq!(p.submit_trustee_share(C, A, vec![0u8; 1025]), Err(Error::ShareTooLarge));
    assert_eq!(p.submit_trustee_share(C, A, vec![4, 5]), Ok(()));
    assert_eq!(p.get_active_recovery(A).unwrap().submitted_shares, 2);
    assert_eq!(p.get_trustee_share(A, B).unwrap().share, vec![1, 2, 3]);
    assert!(p.get_trustee_share(A, C).unwrap().confirmed);

    p.set_block_number(h + DEFAULT_RECOVERY_DELAY - 1);
    assert_eq!(p.execute_recovery(A), Err(Error::DelayPeriodNotPassed));

    let old_did = p.get_aura_id(A).unwrap().did;
    p.set_block_number(h + DEFAULT_RECOVERY_DELAY);
    assert_eq!(p.execute_recovery(A), Ok(()));
    let rec = p.get_aura_id(A).unwrap();
    assert_eq!(rec.public_key, k);
    assert_eq!(rec.did, Pallet::generate_did(&k));
    assert_ne!(rec.did, old_did);
    assert_eq!(p.lookup_by_did(&Pallet::generate_did(&k)), Some(A));
    assert_eq!(p.lookup_by_did(&old_did), None);
    assert!(p.get_active_recovery(A).is_none());
    assert!(!p.get_trustee_share(A, B).unwrap().confirmed);
    assert!(!p.get_trustee_share(A, C).unwrap().confirmed);
    assert_eq!(
        p.events().last(),
        Some(&Event::RecoveryExecuted { lost_account: A, new_account: D })
    );
    assert_eq!(p.execute_recovery(A), Err(Error::RecoveryNotActive));
}

#[test]
fn execute_onto_a_taken_did_collides() {
    let mut p = configured();
    assert_eq!(p.initiate_recovery(D, A, [B as u8; 32]), Ok(()));
    assert_eq!(p.submit_trustee_share(B, A, vec![]), Ok(()));
    assert_eq!(p.submit_trustee_share(C, A, vec![]), Ok(()));
    p.set_block_number(DEFAULT_RECOVERY_DELAY);
    assert_eq!(p.execute_recovery(A), Err(Error::DidCollision));
}

#[test]
fn cancel_clears_request_and_confirmations() {
    let mut p = configured();
    assert_eq!(p.cancel_recovery(A, A), Err(Error::RecoveryNotActive));
    assert_eq!(p.initiate_recovery(D, A, [9u8; 32]), Ok(()));
    assert_eq!(p.submit_trustee_share(B, A, vec![1]), Ok(()));
    assert_eq!(p.cancel_recovery(D, A), Err(Error::NotAuthorized));
    assert_eq!(p.cancel_recovery(A, A), Ok(()));
    assert!(p.get_active_recovery(A).is_none());
    assert!(!p.get_trustee_share(A, B).unwrap().confirmed);
    assert_eq!(p.events().last(), Some(&Event::RecoveryCancelled { account: A }));
    assert_eq!(p.submit_trustee_share(B, A, vec![1]), Err(Error::RecoveryNotActive));
}

#[test]
fn deactivate_releases_deposit() {
    let mut p = configured();
    assert_eq!(p.deactivate_recovery(B), Err(Error::RecoveryNotConfigured));
    assert_eq!(p.initiate_recovery(D, A, [9u8; 32]), Ok(()));
    assert_eq!(p.deactivate_recovery(A), Err(Error::RecoveryAlreadyActive));
    assert_eq!(p.cancel_recovery(A, A), Ok(()));
    assert_eq!(p.deactivate_recovery(A), Ok(()));
    assert!(p.get_recovery_config(A).is_none());
    assert_eq!(p.get_recovery_deposit(A), None);
    assert!(p.get_trustee_share(A, B).is_none());
    assert_eq!(p.free_balance(A), 1_000);
    assert_eq!(p.reserved_balance(A), 0);
    assert_eq!(p.setup_recovery(A, 2, vec![C, D]), Ok(()));
}

#[test]
fn failed_operations_leave_queries_unchanged() {
    let mut p = configured();
    assert_eq!(p.initiate_recovery(D, A, [9u8; 32]), Ok(()));
    let identity = p.get_aura_id(A).cloned();
    let config = p.get_recovery_config(A);
    let share = p.get_trustee_share(A, B).cloned();
    let request = p.get_active_recovery(A);
    let events = p.events().clone();

    assert!(p.create_aura_id(A, [1u8; 32], vec![]).is_err());
    assert!(p.setup_recovery(A, 2, vec![B, C]).is_err());
    assert!(p.add_trustee(A, B).is_err());
    assert!(p.remove_trustee(A, 99).is_err());
    assert!(p.initiate_recovery(E, A, [3u8; 32]).is_err());
    assert!(p.submit_trustee_share(99, A, vec![]).is_err());
    assert!(p.execute_recovery(A).is_err());
    assert!(p.cancel_recovery(B, A).is_err());
    assert!(p.deactivate_recovery(A).is_err());

    assert_eq!(p.get_aura_id(A).cloned(), identity);
    assert_eq!(p.get_recovery_config(A), config);
    assert_eq!(p.get_trustee_share(A, B).cloned(), share);
    assert_eq!(p.get_active_recovery(A), request);
    assert_eq!(p.events(), &events);
}

#[test]
fn height_saturates_for_execute_at() {
    let mut p = configured();
    p.set_block_number(u32::MAX - 1);
    assert_eq!(p.initiate_recovery(D, A, [9u8; 32]), Ok(()));
    assert_eq!(p.get_active_recovery(A).unwrap().execute_at, u32::MAX);
}

#[test]
fn rpc_reads_identities() {
    let p = engine();
    let rpc = AuraIdentityRpcImpl::new(Arc::new(p));
    assert_eq!(rpc.get_identity(A).unwrap().public_key, [1u8; 32]);
    assert!(rpc.get_identity(99).is_none());
}

#[test]
fn extensions_default_is_empty() {
    let e = Extensions::default();
    assert!(e.relay_chain.is_empty());
    assert_eq!(e.para_id, 0);
}

#[test]
fn storage_deposit_formula() {
    assert_eq!(deposit(0, 0), 0);
    assert_eq!(deposit(1, 0), 20 * UNIT);
    assert_eq!(deposit(0, 1), 100 * MILLIUNIT);
    assert_eq!(deposit(2, 10), 41_000_000_000_000);
    assert_eq!(deposit(u32::MAX, u32::MAX), 86_328_842_629_500_000_000_000);
}

#[test]
fn did_is_blake2_256_of_the_key() {
    let expected: [u8; 32] = [
        244, 12, 234, 248, 110, 87, 118, 146, 51, 50, 184, 216, 253, 59, 239, 132, 156, 173, 177,
        156, 105, 150, 188, 39, 42, 241, 246, 72, 217, 86, 106, 76,
    ];
    assert_eq!(Pallet::generate_did(&[1u8; 32]), expected);
}
