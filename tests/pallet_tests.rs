use aura_identity::{Config, Error, Pallet};

fn new_test_ext() -> Pallet {
    let mut p = Pallet::new(Config { max_trustees: 5, recovery_deposit: 100 });
    for account in 1u64..=4 {
        p.set_balance(account, 1_000);
    }
    p
}

fn create_aura_id_for_account(p: &mut Pallet, account: u64) {
    let _ = p.create_aura_id(account, [account as u8; 32], vec![]);
}

#[test]
fn test_did_generation() {
    let public_key = [1u8; 32];
    let did = Pallet::generate_did(&public_key);

    assert_eq!(did.len(), 32);
    assert_ne!(did, public_key);
}

#[test]
fn test_create_aura_id() {
    let mut p = new_test_ext();
    let account_id = 1;
    let public_key = [2u8; 32];
    let recovery_config = vec![1, 2, 3];

    assert!(p.create_aura_id(account_id, public_key, recovery_config.clone()).is_ok());

    let record = p.get_aura_id(account_id).unwrap();
    assert_eq!(record.public_key, public_key);
    assert_eq!(record.recovery_config, recovery_config);
}

#[test]
fn test_duplicate_aura_id() {
    let mut p = new_test_ext();
    let account_id = 1;
    let public_key = [3u8; 32];
    let recovery_config = vec![1, 2, 3];

    assert!(p.create_aura_id(account_id, public_key, recovery_config.clone()).is_ok());

    assert_eq!(
        p.create_aura_id(account_id, public_key, recovery_config),
        Err(Error::AuraIdAlreadyExists)
    );
}

#[test]
fn test_setup_recovery() {
    let mut p = new_test_ext();
    let alice = 1;
    let bob = 2;
    let charlie = 3;

    create_aura_id_for_account(&mut p, alice);
    create_aura_id_for_account(&mut p, bob);
    create_aura_id_for_account(&mut p, charlie);

    assert!(p.setup_recovery(alice, 2, vec![bob, charlie]).is_ok());

    assert!(p.get_recovery_config(alice).is_some());

    let config = p.get_recovery_config(alice).unwrap();
    assert_eq!(config.threshold, 2);
    assert_eq!(config.total_trustees, 2);
    assert!(config.active);
}

#[test]
fn test_add_remove_trustee() {
    let mut p = new_test_ext();
    let alice = 1;
    let bob = 2;
    let charlie = 3;
    let dave = 4;

    create_aura_id_for_account(&mut p, alice);
    create_aura_id_for_account(&mut p, bob);
    create_aura_id_for_account(&mut p, charlie);
    create_aura_id_for_account(&mut p, dave);

    assert!(p.setup_recovery(alice, 2, vec![bob, charlie]).is_ok());

    assert!(p.add_trustee(alice, dave).is_ok());

    assert!(p.get_trustee_share(alice, dave).is_some());

    let config = p.get_recovery_config(alice).unwrap();
    assert_eq!(config.total_trustees, 3);

    assert!(p.remove_trustee(alice, dave).is_ok());

    assert!(p.get_trustee_share(alice, dave).is_none());
}
