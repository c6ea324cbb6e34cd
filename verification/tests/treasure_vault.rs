use stellar_nebula_nomad::treasure_vault::{
    claim_treasure, deposit_treasure, get_vault, set_min_lock_duration, VaultError, VaultStore,
    DEFAULT_MIN_LOCK_DURATION,
};
use stellar_nebula_nomad::types::Address;

const START: u64 = 1_000_000;

fn setup() -> (VaultStore, Address) {
    (VaultStore::new(), Address::from_id(1))
}

#[test]
fn test_deposit_treasure_creates_vault() {
    let (mut store, player) = setup();
    let vault = deposit_treasure(&mut store, &player, 1u64, 500u64, START).unwrap();
    assert_eq!(vault.owner, player);
    assert_eq!(vault.ship_id, 1);
    assert_eq!(vault.amount, 500);
    assert!(!vault.claimed);
    assert_eq!(vault.lock_until, 1_000_000 + DEFAULT_MIN_LOCK_DURATION);
}

#[test]
fn test_deposit_zero_amount_fails() {
    let (mut store, player) = setup();
    let result = deposit_treasure(&mut store, &player, 1u64, 0u64, START);
    assert!(result.is_err());
}

#[test]
fn test_claim_before_lock_expires_fails() {
    let (mut store, player) = setup();
    let vault = deposit_treasure(&mut store, &player, 1u64, 500u64, START).unwrap();
    let result = claim_treasure(&mut store, &player, vault.vault_id, START);
    assert!(result.is_err());
}

#[test]
fn test_claim_after_lock_expires_succeeds() {
    let (mut store, player) = setup();
    let vault = deposit_treasure(&mut store, &player, 1u64, 1000u64, START).unwrap();
    let payout = claim_treasure(&mut store, &player, vault.vault_id, START + DEFAULT_MIN_LOCK_DURATION + 1).unwrap();
    assert_eq!(payout, 1100);
}

#[test]
fn test_claim_bonus_yield_calculation() {
    let (mut store, player) = setup();
    let vault = deposit_treasure(&mut store, &player, 1u64, 333u64, START).unwrap();
    let payout = claim_treasure(&mut store, &player, vault.vault_id, START + DEFAULT_MIN_LOCK_DURATION + 1).unwrap();
    assert_eq!(payout, 366);
}

#[test]
fn test_double_claim_fails() {
    let (mut store, player) = setup();
    let vault = deposit_treasure(&mut store, &player, 1u64, 500u64, START).unwrap();
    let now = START + DEFAULT_MIN_LOCK_DURATION + 1;
    claim_treasure(&mut store, &player, vault.vault_id, now).unwrap();
    let result = claim_treasure(&mut store, &player, vault.vault_id, now);
    assert!(result.is_err());
}

#[test]
fn test_non_owner_cannot_claim() {
    let (mut store, player) = setup();
    let vault = deposit_treasure(&mut store, &player, 1u64, 500u64, START).unwrap();
    let other = Address::from_id(2);
    let result = claim_treasure(&mut store, &other, vault.vault_id, START + DEFAULT_MIN_LOCK_DURATION + 1);
    assert!(result.is_err());
}

#[test]
fn test_get_vault_returns_data() {
    let (mut store, player) = setup();
    let vault = deposit_treasure(&mut store, &player, 1u64, 500u64, START).unwrap();
    let fetched = get_vault(&store, vault.vault_id);
    assert!(fetched.is_some());
    let fetched = fetched.unwrap();
    assert_eq!(fetched.vault_id, vault.vault_id);
    assert_eq!(fetched.amount, 500);
}

#[test]
fn test_get_nonexistent_vault_returns_none() {
    let (store, _player) = setup();
    let fetched = get_vault(&store, 999u64);
    assert!(fetched.is_none());
}

#[test]
fn test_vault_with_mock_time_progression() {
    let (mut store, player) = setup();
    let vault = deposit_treasure(&mut store, &player, 1u64, 100u64, START).unwrap();
    let mut now = START + DEFAULT_MIN_LOCK_DURATION / 2;
    let result = claim_treasure(&mut store, &player, vault.vault_id, now);
    assert!(result.is_err());
    now += DEFAULT_MIN_LOCK_DURATION / 2 + 1;
    let payout = claim_treasure(&mut store, &player, vault.vault_id, now).unwrap();
    assert_eq!(payout, 110);
}

#[test]
fn vault_errors_and_lock_setting() {
    let (mut store, player) = setup();
    let v = deposit_treasure(&mut store, &player, 3, 50, START).unwrap();
    assert_eq!(v.vault_id, 1);
    assert_eq!(claim_treasure(&mut store, &player, v.vault_id, START).unwrap_err(), VaultError::StillLocked);
    assert_eq!(claim_treasure(&mut store, &Address::from_id(2), v.vault_id, START).unwrap_err(), VaultError::NotOwner);
    assert_eq!(claim_treasure(&mut store, &player, 42, START).unwrap_err(), VaultError::VaultNotFound);
    // Exactly at the unlock time the claim succeeds: 50 + 5.
    assert_eq!(claim_treasure(&mut store, &player, v.vault_id, v.lock_until).unwrap(), 55);
    assert_eq!(claim_treasure(&mut store, &player, v.vault_id, v.lock_until).unwrap_err(), VaultError::AlreadyClaimed);
    assert!(get_vault(&store, v.vault_id).unwrap().claimed);
    set_min_lock_duration(&mut store, 10);
    let w = deposit_treasure(&mut store, &player, 3, 9, START).unwrap();
    assert_eq!(w.vault_id, 2);
    assert_eq!(w.lock_until, START + 10);
    assert_eq!(deposit_treasure(&mut store, &player, 3, 0, START).unwrap_err(), VaultError::InvalidAmount);
}
