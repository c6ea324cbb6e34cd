use vstd::prelude::*;
use std::collections::HashMap;
use crate::types::Address;

verus! {

broadcast use vstd::std_specs::hash::group_hash_axioms;

/// Default minimum lock duration: 7 days in seconds.
pub const DEFAULT_MIN_LOCK_DURATION: u64 = 604_800;
/// Bonus paid on claim, in basis points (10%).
pub const BONUS_BPS: u64 = 1_000;
/// Basis points in one whole.
pub const BPS_DENOM: u64 = 10_000;

/// Errors of the treasure vaults.
#[derive(Clone, Copy, Debug, PartialEq, Eq, Structural)]
pub enum VaultError {
    /// Vault not found.
    VaultNotFound,
    /// Caller is not the vault owner.
    NotOwner,
    /// Vault is still within its lock period.
    StillLocked,
    /// Vault has already been claimed.
    AlreadyClaimed,
    /// Deposit amount must be positive.
    InvalidAmount,
}

/// A time-locked treasure vault.
#[derive(Clone, Copy, Debug, PartialEq, Eq, Structural)]
pub struct TreasureVault {
    pub vault_id: u64,
    pub owner: Address,
    pub ship_id: u64,
    pub amount: u64,
    pub lock_until: u64,
    pub bonus_multiplier: u64,
    pub claimed: bool,
}

/// The vaults by id, the vault counter and the configured lock duration
/// (`None`: the default).
pub struct VaultStore {
    pub vaults: HashMap<u64, TreasureVault>,
    pub counter: u64,
    pub min_lock: Option<u64>,
}

/// The lock duration in force.
pub open spec fn lock_duration(min_lock: Option<u64>) -> u64 {
    match min_lock {
        Some(d) => d,
        None => DEFAULT_MIN_LOCK_DURATION,
    }
}

/// What a claim of `v` pays: the amount plus its bonus.
pub open spec fn payout(v: TreasureVault) -> int {
    v.amount + v.amount * v.bonus_multiplier / (BPS_DENOM as int)
}

impl VaultStore {
    /// A store without vaults and with the default lock duration.
    pub fn new() -> (s: VaultStore)
        ensures
            s.vaults@ == Map::<u64, TreasureVault>::empty(),
            s.counter == 0,
            s.min_lock is None,
    {
        VaultStore { vaults: HashMap::new(), counter: 0, min_lock: None }
    }
}

/// Advance the vault counter and return its new value.
fn next_vault_id(store: &mut VaultStore) -> (r: u64)
    requires
        old(store).counter < u64::MAX,
    ensures
        r == old(store).counter + 1,
        final(store).counter == r,
        final(store).vaults@ == old(store).vaults@,
        final(store).min_lock == old(store).min_lock,
{
    store.counter = store.counter + 1;
    store.counter
}

/// The lock duration in force.
fn get_min_lock_duration(store: &VaultStore) -> (r: u64)
    ensures
        r == lock_duration(store.min_lock),
{
    match store.min_lock {
        Some(d) => d,
        None => DEFAULT_MIN_LOCK_DURATION,
    }
}

/// Lock `amount` in a new vault until `now` plus the lock duration; the
/// bonus is paid when it is claimed.
pub fn deposit_treasure(store: &mut VaultStore, owner: &Address, ship_id: u64, amount: u64, now: u64) -> (r: Result<TreasureVault, VaultError>)
    requires
        amount > 0 ==> now + lock_duration(old(store).min_lock) <= u64::MAX && old(store).counter < u64::MAX,
    ensures
        amount == 0 ==> r == Err::<TreasureVault, VaultError>(VaultError::InvalidAmount)
            && final(store).vaults@ == old(store).vaults@ && final(store).counter == old(store).counter,
        amount > 0 ==> {
            let id = (old(store).counter + 1) as u64;
            let v = TreasureVault {
                vault_id: id,
                owner: *owner,
                ship_id,
                amount,
                lock_until: (now + lock_duration(old(store).min_lock)) as u64,
                bonus_multiplier: BONUS_BPS,
                claimed: false,
            };
            &&& r == Ok::<TreasureVault, VaultError>(v)
            &&& final(store).counter == id
            &&& final(store).vaults@ == old(store).vaults@.insert(id, v)
        },
        final(store).min_lock == old(store).min_lock,
{
    if amount == 0 {
        return Err(VaultError::InvalidAmount);
    }
    let min_lock = get_min_lock_duration(store);
    let lock_until = now + min_lock;
    let vault_id = next_vault_id(store);
    let vault = TreasureVault {
        vault_id,
        owner: *owner,
        ship_id,
        amount,
        lock_until,
        bonus_multiplier: BONUS_BPS,
        claimed: false,
    };
    store.vaults.insert(vault_id, vault);
    Ok(vault)
}

/// Claim a vault whose lock has run out at `now`; pays the amount plus
/// `amount * bonus_multiplier / 10_000`.
pub fn claim_treasure(store: &mut VaultStore, owner: &Address, vault_id: u64, now: u64) -> (r: Result<u64, VaultError>)
    requires
        old(store).vaults@.contains_key(vault_id) ==> payout(old(store).vaults@[vault_id]) <= u64::MAX
            && old(store).vaults@[vault_id].amount * old(store).vaults@[vault_id].bonus_multiplier <= u64::MAX,
    ensures
        ({
            let vs = old(store).vaults@;
            let v = vs[vault_id];
            if !vs.contains_key(vault_id) {
                r == Err::<u64, VaultError>(VaultError::VaultNotFound)
            } else if v.owner != *owner {
                r == Err::<u64, VaultError>(VaultError::NotOwner)
            } else if v.claimed {
                r == Err::<u64, VaultError>(VaultError::AlreadyClaimed)
            } else if now < v.lock_until {
                r == Err::<u64, VaultError>(VaultError::StillLocked)
            } else {
                &&& r == Ok::<u64, VaultError>(payout(v) as u64)
                &&& final(store).vaults@ == vs.insert(vault_id, TreasureVault { claimed: true, ..v })
            }
        }),
        r is Err ==> final(store).vaults@ == old(store).vaults@,
        final(store).counter == old(store).counter,
        final(store).min_lock == old(store).min_lock,
{
    let mut vault = match store.vaults.get(&vault_id) {
        Some(v) => *v,
        None => return Err(VaultError::VaultNotFound),
    };
    if vault.owner != *owner {
        return Err(VaultError::NotOwner);
    }
    if vault.claimed {
        return Err(VaultError::AlreadyClaimed);
    }
    if now < vault.lock_until {
        return Err(VaultError::StillLocked);
    }
    let bonus = vault.amount * vault.bonus_multiplier / BPS_DENOM;
    let total_payout = vault.amount + bonus;
    vault.claimed = true;
    store.vaults.insert(vault_id, vault);
    Ok(total_payout)
}

/// A vault by id.
pub fn get_vault(store: &VaultStore, vault_id: u64) -> (r: Option<TreasureVault>)
    ensures
        r == (if store.vaults@.contains_key(vault_id) {
            Some(store.vaults@[vault_id])
        } else {
            None::<TreasureVault>
        }),
{
    match store.vaults.get(&vault_id) {
        Some(v) => Some(*v),
        None => None,
    }
}

/// Set the lock duration of future deposits.
pub fn set_min_lock_duration(store: &mut VaultStore, duration: u64)
    ensures
        final(store).min_lock == Some(duration),
        final(store).vaults@ == old(store).vaults@,
        final(store).counter == old(store).counter,
{
    store.min_lock = Some(duration);
}

/// Law of vaults: a claimed vault stays claimed, so it pays out once; the
/// payout is never less than the deposit and at most 10% above it.
pub proof fn lemma_claim_once(v: TreasureVault)
    requires
        v.bonus_multiplier == BONUS_BPS,
    ensures
        v.amount <= payout(v) <= v.amount + v.amount / 10,
        (TreasureVault { claimed: true, ..v }).claimed,
{
    assert(v.amount * 1000 / 10000 == v.amount / 10) by (nonlinear_arith) requires v.amount >= 0;
}

} // verus!
