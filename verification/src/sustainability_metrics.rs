use vstd::prelude::*;
use std::collections::HashMap;
use crate::types::Address;

verus! {

broadcast use vstd::std_specs::hash::group_hash_axioms;

/// Weekly gas below which a player earns an eco reward.
pub const WEEKLY_GAS_THRESHOLD: u64 = 10_000;
/// Grams of CO2 per thousand gas units (42 mg per unit).
pub const CO2_PER_GAS: u64 = 42;

/// A player's accumulated transaction footprint.
#[derive(Clone, Copy, Debug, PartialEq, Eq, Structural)]
pub struct FootprintRecord {
    pub gas_used: u64,
    pub co2_emissions: u64,
    pub tx_count: u32,
    pub last_update_ts: u64,
}

/// Errors of sustainability tracking.
#[derive(Clone, Copy, Debug, PartialEq, Eq, Structural)]
pub enum SustainabilityError {
    NoRewardEligible,
    InvalidGasValue,
    Unauthorized,
}

/// Footprints by player id.
pub struct SustainabilityStore {
    pub footprints: HashMap<u64, FootprintRecord>,
}

/// `a + b` capped at the largest `u64`.
pub open spec fn sat_add_u64(a: int, b: int) -> int {
    if a + b > u64::MAX {
        u64::MAX as int
    } else {
        a + b
    }
}

/// A player's footprint at `now` (an empty one when nothing is recorded).
pub open spec fn footprint_of(m: Map<u64, FootprintRecord>, player: u64, now: u64) -> FootprintRecord {
    if m.contains_key(player) {
        m[player]
    } else {
        FootprintRecord { gas_used: 0, co2_emissions: 0, tx_count: 0, last_update_ts: now }
    }
}

/// The footprint after one more transaction using `gas` at `now`: gas,
/// emissions (`gas * 42 / 1000` grams) and count grow, saturating.
pub open spec fn footprint_after(f: FootprintRecord, gas: u64, now: u64) -> FootprintRecord {
    FootprintRecord {
        gas_used: sat_add_u64(f.gas_used as int, gas as int) as u64,
        co2_emissions: sat_add_u64(f.co2_emissions as int, sat_add_u64(0, gas * CO2_PER_GAS) / 1000) as u64,
        tx_count: (if f.tx_count < u32::MAX { f.tx_count + 1 } else { f.tx_count as int }) as u32,
        last_update_ts: now,
    }
}

/// The eco reward of a footprint: one unit per 100 gas below the weekly
/// threshold.
pub open spec fn reward_of(f: FootprintRecord) -> int {
    if f.gas_used < WEEKLY_GAS_THRESHOLD {
        (WEEKLY_GAS_THRESHOLD - f.gas_used) / 100
    } else {
        0
    }
}

impl SustainabilityStore {
    /// A store without footprints.
    pub fn new() -> (s: SustainabilityStore)
        ensures
            s.footprints@ == Map::<u64, FootprintRecord>::empty(),
    {
        SustainabilityStore { footprints: HashMap::new() }
    }
}

fn footprint_or_empty(store: &SustainabilityStore, player: &Address, now: u64) -> (r: FootprintRecord)
    ensures
        r == footprint_of(store.footprints@, player.id, now),
{
    match store.footprints.get(&player.id) {
        Some(f) => *f,
        None => FootprintRecord { gas_used: 0, co2_emissions: 0, tx_count: 0, last_update_ts: now },
    }
}

/// Record a transaction of `player` using `gas_used` at `now`.
pub fn record_transaction_footprint(store: &mut SustainabilityStore, player: &Address, gas_used: u64, now: u64) -> (r: Result<FootprintRecord, SustainabilityError>)
    ensures
        gas_used == 0 ==> r == Err::<FootprintRecord, SustainabilityError>(SustainabilityError::InvalidGasValue)
            && final(store).footprints@ == old(store).footprints@,
        gas_used > 0 ==> {
            let f = footprint_after(footprint_of(old(store).footprints@, player.id, now), gas_used, now);
            &&& r == Ok::<FootprintRecord, SustainabilityError>(f)
            &&& final(store).footprints@ == old(store).footprints@.insert(player.id, f)
        },
{
    if gas_used == 0 {
        return Err(SustainabilityError::InvalidGasValue);
    }
    let mut record = footprint_or_empty(store, player, now);
    record.gas_used = record.gas_used.saturating_add(gas_used);
    let scaled = match gas_used.checked_mul(CO2_PER_GAS) {
        Some(v) => v,
        None => u64::MAX,
    };
    let added_co2 = scaled / 1000;
    record.co2_emissions = record.co2_emissions.saturating_add(added_co2);
    record.tx_count = record.tx_count.saturating_add(1);
    record.last_update_ts = now;
    store.footprints.insert(player.id, record);
    Ok(record)
}

/// Claim the eco reward of a player whose gas this week stays below the
/// threshold; the footprint starts afresh.
pub fn claim_sustainability_reward(store: &mut SustainabilityStore, player: &Address, now: u64) -> (r: Result<i128, SustainabilityError>)
    ensures
        ({
            let rew = reward_of(footprint_of(old(store).footprints@, player.id, now));
            &&& rew > 0 ==> r == Ok::<i128, SustainabilityError>(rew as i128)
                && final(store).footprints@ == old(store).footprints@.remove(player.id)
            &&& rew <= 0 ==> r == Err::<i128, SustainabilityError>(SustainabilityError::NoRewardEligible)
                && final(store).footprints@ == old(store).footprints@
        }),
{
    let record = footprint_or_empty(store, player, now);
    if record.gas_used < WEEKLY_GAS_THRESHOLD {
        let reward = (WEEKLY_GAS_THRESHOLD - record.gas_used) as i128 / 100;
        if reward > 0 {
            store.footprints.remove(&player.id);
            return Ok(reward);
        }
    }
    Err(SustainabilityError::NoRewardEligible)
}

/// A player's footprint at `now` (an empty one when nothing is recorded).
pub fn get_footprint(store: &SustainabilityStore, player: &Address, now: u64) -> (r: FootprintRecord)
    ensures
        r == footprint_of(store.footprints@, player.id, now),
{
    footprint_or_empty(store, player, now)
}

/// Law of eco rewards: the reward is at most 100 and paid exactly when at
/// most 9,900 gas were used.
pub proof fn lemma_reward_bounds(f: FootprintRecord)
    ensures
        0 <= reward_of(f) <= 100,
        reward_of(f) > 0 <==> f.gas_used <= 9_900,
{
}

} // verus!
