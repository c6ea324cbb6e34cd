use vstd::prelude::*;
use std::collections::HashMap;
use crate::types::Address;

verus! {

broadcast use vstd::std_specs::hash::group_hash_axioms;

/// Stability percentage below which travel is refused.
pub const MIN_STABLE_PCT: u32 = 10;
/// Maximum portals allowed per single batch registration.
pub const MAX_PORTALS_PER_TX: u32 = 8;
/// Portal stability decays by this many percentage points per day.
pub const DECAY_RATE_PER_DAY: u32 = 2;
/// Seconds in one day.
pub const SECONDS_PER_DAY: u64 = 86_400;
/// Base travel cost in resource units.
pub const BASE_TRAVEL_COST: i128 = 100;

/// Errors of the portal registry.
#[derive(Clone, Copy, Debug, PartialEq, Eq, Structural)]
pub enum PortalError {
    /// Portal stability is below threshold — travel refused.
    PortalUnstable,
    /// Caller is not the portal owner or admin.
    NotAuthorized,
    /// Portal does not exist.
    PortalNotFound,
    /// Batch size exceeded MAX_PORTALS_PER_TX.
    BatchTooLarge,
    /// Source and target nebula IDs must differ.
    SameNebula,
}

/// A portal between two nebulae; its stability decays until refreshed.
#[derive(Clone, Copy, Debug, PartialEq, Eq, Structural)]
pub struct Portal {
    pub id: u64,
    pub owner: Address,
    pub source_nebula: u64,
    pub target_nebula: u64,
    /// Stability at the last refresh (100 when created or refreshed).
    pub initial_stability: u32,
    pub created_at: u64,
    /// Timestamp of the last stability refresh.
    pub last_refreshed: u64,
    pub level: u32,
}

/// The registrar, the portal counter and the portals by id.
pub struct PortalStore {
    pub admin: Option<Address>,
    pub counter: u64,
    pub portals: HashMap<u64, Portal>,
}

/// Whole days since the last refresh, held in 32 bits (taken modulo 2^32).
pub open spec fn elapsed_days(p: Portal, now: u64) -> int {
    let secs = if now > p.last_refreshed { now - p.last_refreshed } else { 0 };
    (secs / (SECONDS_PER_DAY as int)) % 0x1_0000_0000
}

/// Stability of a portal at `now`: two points lost per whole day since the
/// last refresh, never below zero.
pub open spec fn stability_at(p: Portal, now: u64) -> int {
    let decay = if DECAY_RATE_PER_DAY * elapsed_days(p, now) > u32::MAX {
        u32::MAX as int
    } else {
        DECAY_RATE_PER_DAY * elapsed_days(p, now)
    };
    if p.initial_stability > decay {
        p.initial_stability - decay
    } else {
        0
    }
}

/// Travel cost at a stability: `100 * 100 / stability`, or the largest
/// `i128` at zero stability.
pub open spec fn cost_at(stability: int) -> int {
    if stability == 0 {
        i128::MAX as int
    } else {
        BASE_TRAVEL_COST * 100 / stability
    }
}

/// The portal registered as `id` by `owner` at `now`.
pub open spec fn new_portal(id: u64, owner: Address, source: u64, target: u64, now: u64) -> Portal {
    Portal {
        id,
        owner,
        source_nebula: source,
        target_nebula: target,
        initial_stability: 100,
        created_at: now,
        last_refreshed: now,
        level: 1,
    }
}

impl PortalStore {
    /// A registry without portals or registrar.
    pub fn new() -> (s: PortalStore)
        ensures
            s.admin is None,
            s.counter == 0,
            s.portals@ == Map::<u64, Portal>::empty(),
    {
        PortalStore { admin: None, counter: 0, portals: HashMap::new() }
    }
}

/// Stability of a portal at `now`.
pub fn current_stability(portal: &Portal, now: u64) -> (r: u32)
    ensures
        r == stability_at(*portal, now),
{
    let elapsed_secs = now.saturating_sub(portal.last_refreshed);
    let days64 = elapsed_secs / SECONDS_PER_DAY;
    let elapsed_days = days64 as u32;
    proof {
        assert(elapsed_days == days64 % 0x1_0000_0000) by (bit_vector)
            requires elapsed_days == days64 as u32;
    }
    let decay = match DECAY_RATE_PER_DAY.checked_mul(elapsed_days) {
        Some(d) => d,
        None => u32::MAX,
    };
    portal.initial_stability.saturating_sub(decay)
}

/// Travel cost at a stability percentage: unstable portals cost more.
pub fn travel_cost(stability_pct: u32) -> (r: i128)
    ensures
        r == cost_at(stability_pct as int),
{
    if stability_pct == 0 {
        return i128::MAX;
    }
    BASE_TRAVEL_COST * 100 / stability_pct as i128
}

/// Set the registrar and restart the portal counter.
pub fn initialize_portal_registry(store: &mut PortalStore, admin: &Address)
    ensures
        final(store).admin == Some(*admin),
        final(store).counter == 0,
        final(store).portals@ == old(store).portals@,
{
    store.admin = Some(*admin);
    store.counter = 0;
}

/// Register a portal from `source_nebula` to `target_nebula` at `now`, at
/// full stability. Returns its id.
pub fn register_portal(store: &mut PortalStore, owner: &Address, source_nebula: u64, target_nebula: u64, now: u64) -> (r: Result<u64, PortalError>)
    requires
        source_nebula != target_nebula ==> old(store).counter < u64::MAX,
    ensures
        source_nebula == target_nebula ==> r == Err::<u64, PortalError>(PortalError::SameNebula)
            && final(store).portals@ == old(store).portals@ && final(store).counter == old(store).counter,
        source_nebula != target_nebula ==> {
            let id = old(store).counter;
            &&& r == Ok::<u64, PortalError>(id)
            &&& final(store).counter == id + 1
            &&& final(store).portals@ == old(store).portals@.insert(id, new_portal(id, *owner, source_nebula, target_nebula, now))
        },
        final(store).admin == old(store).admin,
{
    if source_nebula == target_nebula {
        return Err(PortalError::SameNebula);
    }
    let portal_id = store.counter;
    let portal = Portal {
        id: portal_id,
        owner: *owner,
        source_nebula,
        target_nebula,
        initial_stability: 100,
        created_at: now,
        last_refreshed: now,
        level: 1,
    };
    store.portals.insert(portal_id, portal);
    store.counter = portal_id + 1;
    Ok(portal_id)
}

/// The portals after registering the first `k` connections from id `first`.
pub open spec fn registered_batch(m: Map<u64, Portal>, first: u64, owner: Address, conns: Seq<(u64, u64)>, now: u64, k: int) -> Map<u64, Portal>
    decreases k,
{
    if k <= 0 {
        m
    } else {
        let id = (first + k - 1) as u64;
        registered_batch(m, first, owner, conns, now, k - 1).insert(id, new_portal(id, owner, conns[k - 1].0, conns[k - 1].1, now))
    }
}

/// Register up to eight portals in one call, with consecutive ids; nothing
/// is registered when any connection joins a nebula to itself.
pub fn register_portal_batch(store: &mut PortalStore, owner: &Address, connections: &Vec<(u64, u64)>, now: u64) -> (r: Result<Vec<u64>, PortalError>)
    requires
        old(store).counter + connections@.len() <= u64::MAX,
    ensures
        connections@.len() > MAX_PORTALS_PER_TX ==> r == Err::<Vec<u64>, PortalError>(PortalError::BatchTooLarge),
        connections@.len() <= MAX_PORTALS_PER_TX && (exists|i: int| 0 <= i < connections@.len()
            && (#[trigger] connections@[i]).0 == connections@[i].1) ==> r == Err::<Vec<u64>, PortalError>(PortalError::SameNebula),
        r is Err ==> final(store).portals@ == old(store).portals@ && final(store).counter == old(store).counter,
        connections@.len() <= MAX_PORTALS_PER_TX && (forall|i: int| 0 <= i < connections@.len()
            ==> (#[trigger] connections@[i]).0 != connections@[i].1) ==> {
            let first = old(store).counter;
            &&& r is Ok
            &&& r->Ok_0@.len() == connections@.len()
            &&& forall|i: int| 0 <= i < connections@.len() ==> #[trigger] r->Ok_0@[i] == first + i
            &&& final(store).counter == first + connections@.len()
            &&& final(store).portals@ == registered_batch(old(store).portals@, first, *owner, connections@, now, connections@.len() as int)
        },
        final(store).admin == old(store).admin,
{
    if connections.len() > MAX_PORTALS_PER_TX as usize {
        return Err(PortalError::BatchTooLarge);
    }
    let mut k: usize = 0;
    while k < connections.len()
        invariant
            0 <= k <= connections@.len(),
            connections@.len() <= MAX_PORTALS_PER_TX,
            store.portals@ == old(store).portals@,
            store.counter == old(store).counter,
            store.admin == old(store).admin,
            forall|i: int| 0 <= i < k ==> (#[trigger] connections@[i]).0 != connections@[i].1,
        decreases connections@.len() - k,
    {
        if connections[k].0 == connections[k].1 {
            return Err(PortalError::SameNebula);
        }
        k += 1;
    }
    let ghost first = store.counter;
    let ghost m0 = store.portals@;
    let mut ids: Vec<u64> = Vec::new();
    let mut i: usize = 0;
    while i < connections.len()
        invariant
            0 <= i <= connections@.len(),
            first + connections@.len() <= u64::MAX,
            forall|j: int| 0 <= j < connections@.len() ==> (#[trigger] connections@[j]).0 != connections@[j].1,
            store.counter == first + i,
            store.admin == old(store).admin,
            store.portals@ == registered_batch(m0, first, *owner, connections@, now, i as int),
            ids@.len() == i,
            forall|j: int| 0 <= j < i ==> #[trigger] ids@[j] == first + j,
        decreases connections@.len() - i,
    {
        let (a, b) = connections[i];
        let id = match register_portal(store, owner, a, b, now) {
            Ok(id) => id,
            Err(e) => return Err(e),
        };
        ids.push(id);
        i += 1;
    }
    Ok(ids)
}

/// Current stability and travel cost of a portal at `now`.
pub fn query_portal_status(store: &PortalStore, portal_id: u64, now: u64) -> (r: Result<(u32, i128), PortalError>)
    ensures
        !store.portals@.contains_key(portal_id) ==> r == Err::<(u32, i128), PortalError>(PortalError::PortalNotFound),
        store.portals@.contains_key(portal_id) ==> {
            let s = stability_at(store.portals@[portal_id], now);
            r == Ok::<(u32, i128), PortalError>((s as u32, cost_at(s) as i128))
        },
{
    let portal = match store.portals.get(&portal_id) {
        Some(p) => *p,
        None => return Err(PortalError::PortalNotFound),
    };
    let stability = current_stability(&portal, now);
    let cost = travel_cost(stability);
    Ok((stability, cost))
}

/// Restore a portal to full stability at `now` (its owner only).
pub fn refresh_portal(store: &mut PortalStore, owner: &Address, portal_id: u64, now: u64) -> (r: Result<(), PortalError>)
    ensures
        !old(store).portals@.contains_key(portal_id) ==> r == Err::<(), PortalError>(PortalError::PortalNotFound),
        old(store).portals@.contains_key(portal_id) && old(store).portals@[portal_id].owner != *owner
            ==> r == Err::<(), PortalError>(PortalError::NotAuthorized),
        r is Err ==> final(store).portals@ == old(store).portals@,
        old(store).portals@.contains_key(portal_id) && old(store).portals@[portal_id].owner == *owner
            ==> r == Ok::<(), PortalError>(())
            && final(store).portals@ == old(store).portals@.insert(
                portal_id,
                Portal { initial_stability: 100, last_refreshed: now, ..old(store).portals@[portal_id] },
            ),
        final(store).admin == old(store).admin,
        final(store).counter == old(store).counter,
{
    let mut portal = match store.portals.get(&portal_id) {
        Some(p) => *p,
        None => return Err(PortalError::PortalNotFound),
    };
    if portal.owner != *owner {
        return Err(PortalError::NotAuthorized);
    }
    portal.initial_stability = 100;
    portal.last_refreshed = now;
    store.portals.insert(portal_id, portal);
    Ok(())
}

/// Travel through a portal at `now`: refused below 10% stability, else the
/// cost to charge.
pub fn travel_through_portal(store: &PortalStore, portal_id: u64, now: u64) -> (r: Result<i128, PortalError>)
    ensures
        !store.portals@.contains_key(portal_id) ==> r == Err::<i128, PortalError>(PortalError::PortalNotFound),
        store.portals@.contains_key(portal_id) ==> {
            let s = stability_at(store.portals@[portal_id], now);
            &&& s < MIN_STABLE_PCT ==> r == Err::<i128, PortalError>(PortalError::PortalUnstable)
            &&& s >= MIN_STABLE_PCT ==> r == Ok::<i128, PortalError>(cost_at(s) as i128)
        },
{
    let portal = match store.portals.get(&portal_id) {
        Some(p) => *p,
        None => return Err(PortalError::PortalNotFound),
    };
    let stability = current_stability(&portal, now);
    if stability < MIN_STABLE_PCT {
        return Err(PortalError::PortalUnstable);
    }
    Ok(travel_cost(stability))
}

/// A portal by id.
pub fn get_portal(store: &PortalStore, portal_id: u64) -> (r: Result<Portal, PortalError>)
    ensures
        store.portals@.contains_key(portal_id) ==> r == Ok::<Portal, PortalError>(store.portals@[portal_id]),
        !store.portals@.contains_key(portal_id) ==> r == Err::<Portal, PortalError>(PortalError::PortalNotFound),
{
    match store.portals.get(&portal_id) {
        Some(p) => Ok(*p),
        None => Err(PortalError::PortalNotFound),
    }
}

/// Law of decay: stability never rises as time passes (while fewer than
/// 2^32 days have gone by since the refresh), and a refreshed portal is at
/// full stability.
pub proof fn lemma_stability_decays(p: Portal, t1: u64, t2: u64)
    requires
        p.initial_stability <= 100,
        t1 <= t2,
        (t2 - p.last_refreshed) / (SECONDS_PER_DAY as int) < 0x1_0000_0000,
    ensures
        stability_at(p, t2) <= stability_at(p, t1),
        stability_at(p, t1) <= 100,
        stability_at(Portal { initial_stability: 100, last_refreshed: t1, ..p }, t1) == 100,
{
    let s1 = if t1 > p.last_refreshed { t1 - p.last_refreshed } else { 0 };
    let s2 = if t2 > p.last_refreshed { t2 - p.last_refreshed } else { 0 };
    assert(s1 <= s2);
    vstd::arithmetic::div_mod::lemma_div_is_ordered(s1, s2, SECONDS_PER_DAY as int);
    vstd::arithmetic::div_mod::lemma_div_pos_is_pos(s1, SECONDS_PER_DAY as int);
    vstd::arithmetic::div_mod::lemma_small_mod((s1 / (SECONDS_PER_DAY as int)) as nat, 0x1_0000_0000nat);
    vstd::arithmetic::div_mod::lemma_small_mod((s2 / (SECONDS_PER_DAY as int)) as nat, 0x1_0000_0000nat);
}

/// Law of travel cost: a less stable portal never costs less.
pub proof fn lemma_cost_rises_as_stability_falls(s1: int, s2: int)
    requires
        0 < s1 <= s2,
    ensures
        cost_at(s1) >= cost_at(s2),
{
    vstd::arithmetic::div_mod::lemma_div_is_ordered_by_denominator(10_000, s1, s2);
}

} // verus!
