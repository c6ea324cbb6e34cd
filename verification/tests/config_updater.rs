use stellar_nebula_nomad::config_updater::{
    add_signer, apply_config_update, approve_config_update, batch_update_config, get_config_value,
    get_live_config, get_pending_update, get_updater_config, initialize_config, is_signer,
    remove_signer, rollback_config, update_config, ConfigError, ConfigStore, ConfigUpdate,
    CONFIG_DELAY_SECONDS, DEFAULT_MIN_APPROVALS, MAX_BATCH_PARAMS,
};
use stellar_nebula_nomad::types::Address;

fn make_value(v: u8) -> [u8; 64] {
    [v; 64]
}

fn param(s: &str) -> String {
    String::from(s)
}

/// Admin + 2 signers, 1h delay, 2 approvals required.
fn setup() -> (ConfigStore, Address, Address, Address) {
    let mut store = ConfigStore::new();
    let admin = Address::from_id(1);
    let signer1 = Address::from_id(2);
    let signer2 = Address::from_id(3);
    let signers = vec![signer1, signer2];
    initialize_config(&mut store, &admin, &signers, CONFIG_DELAY_SECONDS, DEFAULT_MIN_APPROVALS).unwrap();
    (store, admin, signer1, signer2)
}

#[test]
fn test_init_stores_meta() {
    let (store, admin, _, _) = setup();
    let meta = get_updater_config(&store).unwrap();
    assert_eq!(meta.admin, admin);
    assert_eq!(meta.delay_seconds, CONFIG_DELAY_SECONDS);
    assert_eq!(meta.min_approvals, DEFAULT_MIN_APPROVALS);
}

#[test]
fn config_updater_test_double_init_rejected() {
    let (mut store, admin, s1, s2) = setup();
    let signers = vec![s1, s2];
    let err = initialize_config(&mut store, &admin, &signers, 0, 1).unwrap_err();
    assert_eq!(err, ConfigError::AlreadyInitialized);
}

#[test]
fn test_init_registers_signers() {
    let (store, _, s1, s2) = setup();
    assert!(is_signer(&store, &s1));
    assert!(is_signer(&store, &s2));
}

#[test]
fn test_add_and_remove_signer() {
    let (mut store, admin, _, _) = setup();
    let new_signer = Address::from_id(10);
    add_signer(&mut store, &admin, &new_signer).unwrap();
    assert!(is_signer(&store, &new_signer));
    remove_signer(&mut store, &admin, &new_signer).unwrap();
    assert!(!is_signer(&store, &new_signer));
}

#[test]
fn test_non_admin_cannot_add_signer() {
    let (mut store, _, s1, _) = setup();
    let outsider = Address::from_id(10);
    let err = add_signer(&mut store, &s1, &outsider).unwrap_err();
    assert_eq!(err, ConfigError::Unauthorized);
}

#[test]
fn test_admin_can_propose() {
    let (mut store, admin, _, _) = setup();
    let p = param("harvest_cap");
    update_config(&mut store, &admin, &p, make_value(1), 0).unwrap();
    assert!(get_pending_update(&store, &p).is_some());
}

#[test]
fn test_signer_can_propose() {
    let (mut store, _, s1, _) = setup();
    let p = param("base_apy");
    update_config(&mut store, &s1, &p, make_value(5), 0).unwrap();
    assert!(get_pending_update(&store, &p).is_some());
}

#[test]
fn test_non_signer_cannot_propose() {
    let (mut store, _, _, _) = setup();
    let outsider = Address::from_id(10);
    let err = update_config(&mut store, &outsider, &param("scan_range"), make_value(9), 0).unwrap_err();
    assert_eq!(err, ConfigError::Unauthorized);
}

#[test]
fn test_pending_has_correct_apply_after() {
    let mut store = ConfigStore::new();
    let admin = Address::from_id(1);
    let signers: Vec<Address> = Vec::new();
    initialize_config(&mut store, &admin, &signers, 7200, 1).unwrap();
    let p = param("harvest_cap");
    update_config(&mut store, &admin, &p, make_value(1), 1_000_000).unwrap();
    let pending = get_pending_update(&store, &p).unwrap();
    assert_eq!(pending.apply_after, 1_000_000 + 7200);
}

#[test]
fn test_signer_can_approve() {
    let (mut store, admin, s1, _) = setup();
    let p = param("harvest_cap");
    update_config(&mut store, &admin, &p, make_value(1), 0).unwrap();
    let count = approve_config_update(&mut store, &s1, &p).unwrap();
    assert_eq!(count, 1);
}

#[test]
fn test_double_approve_rejected() {
    let (mut store, admin, s1, _) = setup();
    let p = param("base_apy");
    update_config(&mut store, &admin, &p, make_value(2), 0).unwrap();
    approve_config_update(&mut store, &s1, &p).unwrap();
    let err = approve_config_update(&mut store, &s1, &p).unwrap_err();
    assert_eq!(err, ConfigError::AlreadyApproved);
}

#[test]
fn test_approve_with_no_pending_fails() {
    let (mut store, _, s1, _) = setup();
    let err = approve_config_update(&mut store, &s1, &param("scan_range")).unwrap_err();
    assert_eq!(err, ConfigError::NoPendingUpdate);
}

#[test]
fn test_non_signer_cannot_approve() {
    let (mut store, admin, _, _) = setup();
    let p = param("tx_fee_bps");
    update_config(&mut store, &admin, &p, make_value(3), 0).unwrap();
    let outsider = Address::from_id(10);
    let err = approve_config_update(&mut store, &outsider, &p).unwrap_err();
    assert_eq!(err, ConfigError::Unauthorized);
}

#[test]
fn test_apply_requires_enough_approvals() {
    let (mut store, admin, s1, _) = setup();
    let p = param("harvest_cap");
    update_config(&mut store, &admin, &p, make_value(7), 0).unwrap();
    approve_config_update(&mut store, &s1, &p).unwrap();
    let err = apply_config_update(&mut store, &p, CONFIG_DELAY_SECONDS + 1).unwrap_err();
    assert_eq!(err, ConfigError::PendingApproval);
}

#[test]
fn test_apply_requires_time_lock_elapsed() {
    let (mut store, admin, s1, s2) = setup();
    let p = param("harvest_cap");
    update_config(&mut store, &admin, &p, make_value(8), 0).unwrap();
    approve_config_update(&mut store, &s1, &p).unwrap();
    approve_config_update(&mut store, &s2, &p).unwrap();
    let err = apply_config_update(&mut store, &p, 0).unwrap_err();
    assert_eq!(err, ConfigError::TimeLockActive);
}

#[test]
fn test_successful_apply() {
    let (mut store, admin, s1, s2) = setup();
    let p = param("base_apy");
    let val = make_value(42);
    update_config(&mut store, &admin, &p, val, 0).unwrap();
    approve_config_update(&mut store, &s1, &p).unwrap();
    approve_config_update(&mut store, &s2, &p).unwrap();
    let live = apply_config_update(&mut store, &p, CONFIG_DELAY_SECONDS + 1).unwrap();
    assert_eq!(live.value, val);
    assert_eq!(live.approvals, 2);
    assert!(get_pending_update(&store, &p).is_none());
    assert_eq!(get_config_value(&store, &p).unwrap(), val);
}

#[test]
fn test_apply_no_pending_fails() {
    let (mut store, _, _, _) = setup();
    let err = apply_config_update(&mut store, &param("max_hops"), 0).unwrap_err();
    assert_eq!(err, ConfigError::NoPendingUpdate);
}

#[test]
fn test_batch_update_proposes_all() {
    let (mut store, admin, _, _) = setup();
    let names = ["harvest_cap", "base_apy", "scan_range", "max_hops", "tx_fee_bps"];
    let mut updates = Vec::new();
    for (i, n) in names.iter().enumerate() {
        updates.push(ConfigUpdate { param: param(n), value: make_value(i as u8) });
    }
    let count = batch_update_config(&mut store, &admin, &updates, 0).unwrap();
    assert_eq!(count, 5);
}

#[test]
fn config_updater_test_batch_too_large_rejected() {
    let (mut store, admin, _, _) = setup();
    let mut updates = Vec::new();
    for i in 0..(MAX_BATCH_PARAMS + 1) {
        updates.push(ConfigUpdate { param: param("harvest_cap"), value: make_value(i as u8) });
    }
    let err = batch_update_config(&mut store, &admin, &updates, 0).unwrap_err();
    assert_eq!(err, ConfigError::BatchTooLarge);
}

#[test]
fn test_admin_can_rollback() {
    let (mut store, admin, _, _) = setup();
    let p = param("scan_range");
    update_config(&mut store, &admin, &p, make_value(1), 0).unwrap();
    rollback_config(&mut store, &admin, &p).unwrap();
    assert!(get_pending_update(&store, &p).is_none());
}

#[test]
fn test_rollback_with_no_pending_fails() {
    let (mut store, admin, _, _) = setup();
    let err = rollback_config(&mut store, &admin, &param("scan_range")).unwrap_err();
    assert_eq!(err, ConfigError::NoPendingUpdate);
}

#[test]
fn test_non_admin_cannot_rollback() {
    let (mut store, admin, s1, _) = setup();
    let p = param("energy_rate");
    update_config(&mut store, &admin, &p, make_value(1), 0).unwrap();
    let err = rollback_config(&mut store, &s1, &p).unwrap_err();
    assert_eq!(err, ConfigError::Unauthorized);
}

#[test]
fn test_full_config_lifecycle() {
    let mut store = ConfigStore::new();
    let admin = Address::from_id(1);
    let signer1 = Address::from_id(2);
    let signer2 = Address::from_id(3);
    initialize_config(&mut store, &admin, &vec![signer1, signer2], 3600, 2).unwrap();
    let mut now: u64 = 5_000_000;
    let p = param("prize_share");
    let val = make_value(25);

    assert!(get_config_value(&store, &p).is_none());
    update_config(&mut store, &admin, &p, val, now).unwrap();
    let pending = get_pending_update(&store, &p).unwrap();
    assert_eq!(pending.approvals, 0);

    approve_config_update(&mut store, &signer1, &p).unwrap();

    now += 3601;
    let err = apply_config_update(&mut store, &p, now).unwrap_err();
    assert_eq!(err, ConfigError::PendingApproval);

    approve_config_update(&mut store, &signer2, &p).unwrap();

    let live = apply_config_update(&mut store, &p, now).unwrap();
    assert_eq!(live.value, val);
    assert!(get_config_value(&store, &p).is_some());
    assert!(get_pending_update(&store, &p).is_none());
}

#[test]
fn test_zero_delay_immediate_apply() {
    let mut store = ConfigStore::new();
    let admin = Address::from_id(1);
    let signer1 = Address::from_id(2);
    initialize_config(&mut store, &admin, &vec![signer1], 0, 1).unwrap();
    let p = param("min_stake");
    update_config(&mut store, &admin, &p, make_value(100), 0).unwrap();
    approve_config_update(&mut store, &signer1, &p).unwrap();
    let live = apply_config_update(&mut store, &p, 0).unwrap();
    assert_eq!(live.value, make_value(100));
}

#[test]
fn uninitialised_updater_refuses_everything() {
    let mut store = ConfigStore::new();
    let a = Address::from_id(1);
    assert_eq!(add_signer(&mut store, &a, &a).unwrap_err(), ConfigError::NotInitialized);
    assert_eq!(update_config(&mut store, &a, &param("x"), make_value(1), 0).unwrap_err(), ConfigError::NotInitialized);
    assert_eq!(apply_config_update(&mut store, &param("x"), 0).unwrap_err(), ConfigError::NotInitialized);
    assert_eq!(rollback_config(&mut store, &a, &param("x")).unwrap_err(), ConfigError::NotInitialized);
}

#[test]
fn new_proposal_restarts_approvals() {
    let (mut store, admin, s1, s2) = setup();
    let p = param("base_apy");
    update_config(&mut store, &admin, &p, make_value(1), 0).unwrap();
    approve_config_update(&mut store, &s1, &p).unwrap();
    update_config(&mut store, &admin, &p, make_value(2), 10).unwrap();
    let pending = get_pending_update(&store, &p).unwrap();
    assert_eq!(pending.approvals, 0);
    assert_eq!(pending.apply_after, 10 + CONFIG_DELAY_SECONDS);
    assert_eq!(approve_config_update(&mut store, &s1, &p).unwrap(), 1);
    assert_eq!(approve_config_update(&mut store, &s2, &p).unwrap(), 2);
    let live = apply_config_update(&mut store, &p, 10 + CONFIG_DELAY_SECONDS).unwrap();
    assert_eq!(live.value, make_value(2));
    assert_eq!(get_live_config(&store, &p).unwrap().applied_at, 10 + CONFIG_DELAY_SECONDS);
}

#[test]
fn batch_by_outsider_changes_nothing() {
    let (mut store, _, _, _) = setup();
    let outsider = Address::from_id(10);
    let updates = vec![ConfigUpdate { param: param("a"), value: make_value(1) }];
    assert_eq!(batch_update_config(&mut store, &outsider, &updates, 0).unwrap_err(), ConfigError::Unauthorized);
    assert!(get_pending_update(&store, &param("a")).is_none());
    assert_eq!(batch_update_config(&mut store, &outsider, &Vec::new(), 0).unwrap(), 0);
}
