use vstd::prelude::*;
use std::collections::HashMap;
use crate::types::{Address, bytes32_eq, copy_vec, u32_byte, u64_byte, u32_byte_at, u64_byte_at};

verus! {

broadcast use vstd::std_specs::hash::group_hash_axioms;

/// Base energy cost of any wormhole travel.
pub const BASE_TRAVEL_COST: u32 = 50;
/// Energy per unit of distance between the two nebulae.
pub const DISTANCE_MULTIPLIER: u32 = 2;
/// Most wormholes open at once.
pub const MAX_SIMULTANEOUS_WORMHOLES: u32 = 5;
/// Lifetime of a wormhole: one hour.
pub const WORMHOLE_LIFETIME_SECS: u64 = 3600;
/// Most travel records kept per ship.
pub const MAX_TRAVEL_HISTORY: usize = 100;

/// Errors of wormhole travel.
#[derive(Clone, Copy, Debug, PartialEq, Eq, Structural)]
pub enum WormholeError {
    InvalidDestination,
    InsufficientEnergy,
    ShipNotFound,
    WormholeNotFound,
    WormholeExpired,
    MaxWormholesReached,
    UnauthorizedTravel,
    SameNebulaTravel,
    WormholeClosed,
    EnergyManagerError,
}

/// A wormhole between two nebulae.
#[derive(Clone, Copy, Debug)]
pub struct Wormhole {
    pub wormhole_id: u64,
    pub origin_nebula: u64,
    pub destination: u64,
    pub creator: Address,
    pub created_at: u64,
    pub expires_at: u64,
    pub is_active: bool,
    pub travel_cost: u32,
    pub verifiable_link: [u8; 32],
}

/// One traversal of a wormhole by a ship.
#[derive(Clone, Copy, Debug, PartialEq, Eq, Structural)]
pub struct TravelRecord {
    pub ship_id: u64,
    pub wormhole_id: u64,
    pub origin_nebula: u64,
    pub destination: u64,
    pub traveled_at: u64,
    pub energy_consumed: u32,
}

/// The wormholes by id, the ids of the active ones in opening order, the next
/// id, and each ship's travel history.
pub struct WormholeStore {
    wormholes: HashMap<u64, Wormhole>,
    active: Vec<u64>,
    next_id: u64,
    histories: HashMap<u64, Vec<TravelRecord>>,
}

/// Distance between two nebula ids.
pub open spec fn distance(a: u64, b: u64) -> int {
    if b > a {
        b - a
    } else {
        a - b
    }
}

/// Energy cost of travel between two distinct nebulae: the distance is taken
/// modulo 2^32 (it is held in 32 bits), doubled, plus the base cost.
pub open spec fn cost_between(origin: u64, destination: u64) -> int {
    BASE_TRAVEL_COST + DISTANCE_MULTIPLIER * (distance(origin, destination) % 0x1_0000_0000)
}

/// The verifiable link of a wormhole: the big-endian bytes of origin,
/// destination, ledger sequence (then four zero bytes) and timestamp.
pub open spec fn wormhole_link(origin: u64, destination: u64, sequence: u32, timestamp: u64) -> Seq<u8> {
    Seq::new(
        32,
        |k: int|
            if k < 8 {
                u64_byte(origin, k)
            } else if k < 16 {
                u64_byte(destination, k - 8)
            } else if k < 20 {
                u32_byte(sequence, k - 16)
            } else if k < 24 {
                0u8
            } else {
                u64_byte(timestamp, k - 24)
            },
    )
}

/// A ship's history after one more record: the oldest record leaves once
/// more than one hundred are held.
pub open spec fn append_capped(h: Seq<TravelRecord>, rec: TravelRecord) -> Seq<TravelRecord> {
    let h2 = h.push(rec);
    if h2.len() > MAX_TRAVEL_HISTORY {
        h2.drop_first()
    } else {
        h2
    }
}

/// Whether wormhole `id` exists and is still open at `now`.
pub open spec fn still_open(ws: Map<u64, Wormhole>, id: u64, now: u64) -> bool {
    ws.contains_key(id) && now <= ws[id].expires_at && ws[id].is_active
}

/// The wormhole with its `is_active` flag cleared.
pub open spec fn closed(w: Wormhole) -> Wormhole {
    Wormhole { is_active: false, ..w }
}

/// A cleanup pass over the active ids `ids` at `now`: the wormholes after it,
/// the ids kept active, and the number of wormholes closed. Ids without a
/// wormhole are dropped without being counted.
pub open spec fn cleanup_pass(ws: Map<u64, Wormhole>, ids: Seq<u64>, now: u64) -> (Map<u64, Wormhole>, Seq<u64>, int)
    decreases ids.len(),
{
    if ids.len() == 0 {
        (ws, Seq::empty(), 0)
    } else {
        let prev = cleanup_pass(ws, ids.drop_last(), now);
        let id = ids.last();
        let ws1 = prev.0;
        if ws1.contains_key(id) {
            if now <= ws1[id].expires_at && ws1[id].is_active {
                (ws1, prev.1.push(id), prev.2)
            } else {
                (ws1.insert(id, closed(ws1[id])), prev.1, prev.2 + 1)
            }
        } else {
            prev
        }
    }
}

impl WormholeStore {
    #[verifier::type_invariant]
    spec fn wf(&self) -> bool {
        self.active@.len() <= MAX_SIMULTANEOUS_WORMHOLES
    }

    /// The wormholes by id.
    pub closed spec fn wormholes(&self) -> Map<u64, Wormhole> {
        self.wormholes@
    }

    /// Ids of the active wormholes, oldest first.
    pub closed spec fn active(&self) -> Seq<u64> {
        self.active@
    }

    /// The id the next wormhole gets.
    pub closed spec fn next_id(&self) -> u64 {
        self.next_id
    }

    /// Travel history of a ship, oldest first.
    pub closed spec fn history(&self, ship_id: u64) -> Seq<TravelRecord> {
        if self.histories@.contains_key(ship_id) {
            self.histories@[ship_id]@
        } else {
            Seq::empty()
        }
    }

    /// Travel histories of all ships.
    pub closed spec fn histories(&self) -> Map<u64, Vec<TravelRecord>> {
        self.histories@
    }

    /// A store without wormholes.
    pub fn new() -> (s: WormholeStore)
        ensures
            s.wormholes() == Map::<u64, Wormhole>::empty(),
            s.active() == Seq::<u64>::empty(),
            s.next_id() == 0,
            s.histories() == Map::<u64, Vec<TravelRecord>>::empty(),
    {
        WormholeStore { wormholes: HashMap::new(), active: Vec::new(), next_id: 0, histories: HashMap::new() }
    }

    /// Number of active wormholes never exceeds the limit.
    pub fn active_count(&self) -> (n: usize)
        ensures
            n == self.active().len(),
            n <= MAX_SIMULTANEOUS_WORMHOLES,
    {
        proof { use_type_invariant(self); }
        self.active.len()
    }

    /// The id the next opened wormhole gets.
    pub fn next_wormhole_id(&self) -> (n: u64)
        ensures
            n == self.next_id(),
    {
        self.next_id
    }
}

/// Energy cost of travel between two nebulae (zero when they are the same).
pub fn calculate_travel_cost(origin_nebula: u64, destination: u64) -> (r: u32)
    requires
        origin_nebula != destination ==> cost_between(origin_nebula, destination) <= u32::MAX,
    ensures
        origin_nebula == destination ==> r == 0,
        origin_nebula != destination ==> r == cost_between(origin_nebula, destination),
{
    if origin_nebula == destination {
        return 0;
    }
    travel_cost_of(origin_nebula, destination)
}

fn travel_cost_of(origin_nebula: u64, destination: u64) -> (r: u32)
    requires
        cost_between(origin_nebula, destination) <= u32::MAX,
    ensures
        r == cost_between(origin_nebula, destination),
{
    let distance = if destination > origin_nebula {
        destination - origin_nebula
    } else {
        origin_nebula - destination
    };
    let d = distance as u32;
    proof {
        assert(d == distance % 0x1_0000_0000) by (bit_vector)
            requires d == distance as u32;
    }
    BASE_TRAVEL_COST + d * DISTANCE_MULTIPLIER
}

/// Open a wormhole from `origin_nebula` to `destination` at ledger
/// `sequence` and time `now`; it lives one hour and costs energy by distance.
pub fn open_wormhole(
    store: &mut WormholeStore,
    creator: Address,
    origin_nebula: u64,
    destination: u64,
    sequence: u32,
    now: u64,
) -> (r: Result<u64, WormholeError>)
    requires
        origin_nebula != destination && old(store).active().len() < MAX_SIMULTANEOUS_WORMHOLES ==> {
            &&& cost_between(origin_nebula, destination) <= u32::MAX
            &&& old(store).next_id() < u64::MAX
            &&& now + WORMHOLE_LIFETIME_SECS <= u64::MAX
        },
    ensures
        origin_nebula == destination ==> r == Err::<u64, WormholeError>(WormholeError::SameNebulaTravel),
        origin_nebula != destination && old(store).active().len() >= MAX_SIMULTANEOUS_WORMHOLES
            ==> r == Err::<u64, WormholeError>(WormholeError::MaxWormholesReached),
        r is Err ==> final(store).wormholes() == old(store).wormholes()
            && final(store).active() == old(store).active()
            && final(store).next_id() == old(store).next_id(),
        origin_nebula != destination && old(store).active().len() < MAX_SIMULTANEOUS_WORMHOLES ==> {
            let id = old(store).next_id();
            &&& r == Ok::<u64, WormholeError>(id)
            &&& final(store).next_id() == id + 1
            &&& final(store).active() == old(store).active().push(id)
            &&& final(store).wormholes().dom() == old(store).wormholes().dom().insert(id)
            &&& forall|k: u64| k != id && old(store).wormholes().contains_key(k)
                ==> #[trigger] final(store).wormholes()[k] == old(store).wormholes()[k]
            &&& final(store).wormholes()[id].wormhole_id == id
            &&& final(store).wormholes()[id].origin_nebula == origin_nebula
            &&& final(store).wormholes()[id].destination == destination
            &&& final(store).wormholes()[id].creator == creator
            &&& final(store).wormholes()[id].created_at == now
            &&& final(store).wormholes()[id].expires_at == now + WORMHOLE_LIFETIME_SECS
            &&& final(store).wormholes()[id].is_active
            &&& final(store).wormholes()[id].travel_cost == cost_between(origin_nebula, destination)
            &&& final(store).wormholes()[id].verifiable_link@
                == wormhole_link(origin_nebula, destination, sequence, now)
        },
        final(store).histories() == old(store).histories(),
        final(store).active().len() <= MAX_SIMULTANEOUS_WORMHOLES,
{
    proof { use_type_invariant(&*store); }
    if origin_nebula == destination {
        return Err(WormholeError::SameNebulaTravel);
    }
    if store.active.len() >= MAX_SIMULTANEOUS_WORMHOLES as usize {
        return Err(WormholeError::MaxWormholesReached);
    }
    let wormhole_id = store.next_id;
    let travel_cost = travel_cost_of(origin_nebula, destination);

    let mut link: [u8; 32] = [0u8; 32];
    let mut i: usize = 0;
    while i < 8
        invariant
            0 <= i <= 8,
            forall|k: int| 0 <= k < 32 && (k % 8) < i ==> #[trigger] link@[k]
                == wormhole_link(origin_nebula, destination, sequence, now)[k],
            forall|k: int| 20 <= k < 24 ==> #[trigger] link@[k] == 0u8,
        decreases 8 - i,
    {
        link[i] = u64_byte_at(origin_nebula, i);
        link[i + 8] = u64_byte_at(destination, i);
        if i < 4 {
            link[i + 16] = u32_byte_at(sequence, i);
        }
        link[i + 24] = u64_byte_at(now, i);
        i += 1;
    }
    proof {
        assert(link@ =~= wormhole_link(origin_nebula, destination, sequence, now));
    }

    let wormhole = Wormhole {
        wormhole_id,
        origin_nebula,
        destination,
        creator,
        created_at: now,
        expires_at: now + WORMHOLE_LIFETIME_SECS,
        is_active: true,
        travel_cost,
        verifiable_link: link,
    };
    let mut wormholes: HashMap<u64, Wormhole> = HashMap::new();
    std::mem::swap(&mut wormholes, &mut store.wormholes);
    wormholes.insert(wormhole_id, wormhole);
    store.wormholes = wormholes;
    store.next_id = wormhole_id + 1;
    let mut active: Vec<u64> = Vec::new();
    std::mem::swap(&mut active, &mut store.active);
    active.push(wormhole_id);
    store.active = active;
    Ok(wormhole_id)
}

/// Traverse wormhole `wormhole_id` with ship `ship_id` at time `now`.
/// `ship_owner` is the owner of the ship (`None` when it does not exist) and
/// `energy` its energy balance (`None` when it cannot be read); on success the
/// travel cost is deducted from that balance.
pub fn traverse_wormhole(
    store: &mut WormholeStore,
    traveler: Address,
    ship_id: u64,
    wormhole_id: u64,
    now: u64,
    ship_owner: Option<Address>,
    energy: &mut Option<u32>,
) -> (r: Result<TravelRecord, WormholeError>)
    ensures
        ({
            let bal = *old(energy);
            let ws = old(store).wormholes();
            let w = ws[wormhole_id];
            if !ws.contains_key(wormhole_id) {
                r == Err::<TravelRecord, WormholeError>(WormholeError::WormholeNotFound)
            } else if !w.is_active {
                r == Err::<TravelRecord, WormholeError>(WormholeError::WormholeClosed)
            } else if now > w.expires_at {
                r == Err::<TravelRecord, WormholeError>(WormholeError::WormholeExpired)
            } else if ship_owner is None {
                r == Err::<TravelRecord, WormholeError>(WormholeError::ShipNotFound)
            } else if ship_owner->0 != traveler {
                r == Err::<TravelRecord, WormholeError>(WormholeError::UnauthorizedTravel)
            } else if bal is None {
                r == Err::<TravelRecord, WormholeError>(WormholeError::EnergyManagerError)
            } else if bal->0 < w.travel_cost {
                r == Err::<TravelRecord, WormholeError>(WormholeError::InsufficientEnergy)
            } else {
                let rec = TravelRecord {
                    ship_id,
                    wormhole_id,
                    origin_nebula: w.origin_nebula,
                    destination: w.destination,
                    traveled_at: now,
                    energy_consumed: w.travel_cost,
                };
                &&& r == Ok::<TravelRecord, WormholeError>(rec)
                &&& *final(energy) == Some((bal->0 - w.travel_cost) as u32)
                &&& final(store).history(ship_id) == append_capped(old(store).history(ship_id), rec)
                &&& forall|s: u64| s != ship_id ==> #[trigger] final(store).history(s) == old(store).history(s)
            }
        }),
        r is Err ==> final(store).histories() == old(store).histories() && *final(energy) == *old(energy),
        final(store).wormholes() == old(store).wormholes(),
        final(store).active() == old(store).active(),
        final(store).next_id() == old(store).next_id(),
{
    proof { use_type_invariant(&*store); }
    let wormhole = match store.wormholes.get(&wormhole_id) {
        Some(w) => *w,
        None => return Err(WormholeError::WormholeNotFound),
    };
    if !wormhole.is_active {
        return Err(WormholeError::WormholeClosed);
    }
    if now > wormhole.expires_at {
        return Err(WormholeError::WormholeExpired);
    }
    match ship_owner {
        None => return Err(WormholeError::ShipNotFound),
        Some(owner) => {
            if owner != traveler {
                return Err(WormholeError::UnauthorizedTravel);
            }
        },
    }
    let current = match *energy {
        None => return Err(WormholeError::EnergyManagerError),
        Some(e) => e,
    };
    if current < wormhole.travel_cost {
        return Err(WormholeError::InsufficientEnergy);
    }
    *energy = Some(current - wormhole.travel_cost);
    let record = TravelRecord {
        ship_id,
        wormhole_id,
        origin_nebula: wormhole.origin_nebula,
        destination: wormhole.destination,
        traveled_at: now,
        energy_consumed: wormhole.travel_cost,
    };
    let mut histories: HashMap<u64, Vec<TravelRecord>> = HashMap::new();
    std::mem::swap(&mut histories, &mut store.histories);
    let ghost before = histories@;
    let mut history = match histories.remove(&ship_id) {
        Some(h) => h,
        None => Vec::new(),
    };
    proof {
        assert(history@ == (if before.contains_key(ship_id) { before[ship_id]@ } else { Seq::<TravelRecord>::empty() }));
    }
    history.push(record);
    if history.len() > MAX_TRAVEL_HISTORY {
        history.remove(0);
    }
    proof {
        assert(history@ =~= append_capped(if before.contains_key(ship_id) { before[ship_id]@ } else { Seq::<TravelRecord>::empty() }, record));
    }
    histories.insert(ship_id, history);
    store.histories = histories;
    Ok(record)
}

/// Wormhole details by id.
pub fn get_wormhole(store: &WormholeStore, wormhole_id: u64) -> (r: Option<Wormhole>)
    ensures
        r == (if store.wormholes().contains_key(wormhole_id) {
            Some(store.wormholes()[wormhole_id])
        } else {
            None::<Wormhole>
        }),
{
    match store.wormholes.get(&wormhole_id) {
        Some(w) => Some(*w),
        None => None,
    }
}

/// Ids of the active wormholes, oldest first.
pub fn get_active_wormholes(store: &WormholeStore) -> (r: Vec<u64>)
    ensures
        r@ == store.active(),
{
    copy_vec(&store.active)
}

/// Travel history of a ship, oldest first.
pub fn get_travel_history(store: &WormholeStore, ship_id: u64) -> (r: Vec<TravelRecord>)
    ensures
        r@ == store.history(ship_id),
{
    match store.histories.get(&ship_id) {
        Some(h) => copy_vec(h),
        None => Vec::new(),
    }
}

/// Close the wormholes that expired or were closed by `now`, and keep only
/// the open ones active; returns how many were closed.
pub fn cleanup_expired_wormholes(store: &mut WormholeStore, now: u64) -> (r: u32)
    ensures
        ({
            let pass = cleanup_pass(old(store).wormholes(), old(store).active(), now);
            &&& final(store).wormholes() == pass.0
            &&& final(store).active() == pass.1
            &&& r == pass.2
        }),
        final(store).next_id() == old(store).next_id(),
        final(store).histories() == old(store).histories(),
        final(store).active().len() <= MAX_SIMULTANEOUS_WORMHOLES,
{
    proof { use_type_invariant(&*store); }
    let mut wormholes: HashMap<u64, Wormhole> = HashMap::new();
    std::mem::swap(&mut wormholes, &mut store.wormholes);
    let mut ids: Vec<u64> = Vec::new();
    std::mem::swap(&mut ids, &mut store.active);
    let ghost ws0 = wormholes@;
    let mut kept: Vec<u64> = Vec::new();
    let mut cleaned: u32 = 0;
    let mut i: usize = 0;
    while i < ids.len()
        invariant
            0 <= i <= ids@.len(),
            ids@.len() <= MAX_SIMULTANEOUS_WORMHOLES,
            ({
                let pass = cleanup_pass(ws0, ids@.subrange(0, i as int), now);
                &&& wormholes@ == pass.0
                &&& kept@ == pass.1
                &&& cleaned == pass.2
            }),
            kept@.len() + cleaned <= i,
        decreases ids@.len() - i,
    {
        let id = ids[i];
        proof {
            assert(ids@.subrange(0, i + 1).drop_last() =~= ids@.subrange(0, i as int));
        }
        let found = match wormholes.get(&id) {
            Some(w) => Some(*w),
            None => None,
        };
        match found {
            Some(w) => {
                if now <= w.expires_at && w.is_active {
                    kept.push(id);
                } else {
                    let mut updated = w;
                    updated.is_active = false;
                    wormholes.insert(id, updated);
                    cleaned += 1;
                }
            },
            None => {},
        }
        i += 1;
    }
    proof {
        assert(ids@.subrange(0, ids@.len() as int) =~= ids@);
    }
    store.wormholes = wormholes;
    store.active = kept;
    cleaned
}

/// Whether `provided_link` is the verifiable link of wormhole `wormhole_id`.
pub fn verify_wormhole_link(store: &WormholeStore, wormhole_id: u64, provided_link: &[u8; 32]) -> (r: bool)
    ensures
        r == (store.wormholes().contains_key(wormhole_id)
            && store.wormholes()[wormhole_id].verifiable_link == *provided_link),
{
    match store.wormholes.get(&wormhole_id) {
        Some(w) => bytes32_eq(&w.verifiable_link, provided_link),
        None => false,
    }
}

/// Law of cleanup: every id it keeps active names a wormhole that is still
/// open at that time, and every id is either kept, closed or dropped.
pub proof fn lemma_cleanup_keeps_only_open(ws: Map<u64, Wormhole>, ids: Seq<u64>, now: u64)
    ensures
        forall|k: int| 0 <= k < cleanup_pass(ws, ids, now).1.len()
            ==> #[trigger] still_open(cleanup_pass(ws, ids, now).0, cleanup_pass(ws, ids, now).1[k], now),
        cleanup_pass(ws, ids, now).1.len() + cleanup_pass(ws, ids, now).2 <= ids.len(),
    decreases ids.len(),
{
    if ids.len() > 0 {
        lemma_cleanup_keeps_only_open(ws, ids.drop_last(), now);
        let prev = cleanup_pass(ws, ids.drop_last(), now);
        let cur = cleanup_pass(ws, ids, now);
        let id = ids.last();
        assert forall|k: int| 0 <= k < cur.1.len() implies #[trigger] still_open(cur.0, cur.1[k], now) by {
            if k < prev.1.len() {
                assert(still_open(prev.0, prev.1[k], now));
                assert(cur.1[k] == prev.1[k]);
                if prev.0.contains_key(id) && !(now <= prev.0[id].expires_at && prev.0[id].is_active) {
                    assert(prev.1[k] != id);
                }
            }
        }
    }
}

/// Law of travel: the travel history of a ship never holds more than one
/// hundred records.
pub proof fn lemma_history_capped(h: Seq<TravelRecord>, rec: TravelRecord)
    requires
        h.len() <= MAX_TRAVEL_HISTORY,
    ensures
        append_capped(h, rec).len() <= MAX_TRAVEL_HISTORY,
        append_capped(h, rec).last() == rec,
{
}

/// The eight big-endian bytes of a `u64` determine it.
proof fn lemma_u64_bytes_determine(x: u64, y: u64)
    requires
        forall|k: int| 0 <= k < 8 ==> #[trigger] u64_byte(x, k) == u64_byte(y, k),
    ensures
        x == y,
{
    assert(u64_byte(x, 0) == u64_byte(y, 0));
    assert(u64_byte(x, 1) == u64_byte(y, 1));
    assert(u64_byte(x, 2) == u64_byte(y, 2));
    assert(u64_byte(x, 3) == u64_byte(y, 3));
    assert(u64_byte(x, 4) == u64_byte(y, 4));
    assert(u64_byte(x, 5) == u64_byte(y, 5));
    assert(u64_byte(x, 6) == u64_byte(y, 6));
    assert(u64_byte(x, 7) == u64_byte(y, 7));
    assert(x == y) by (bit_vector)
        requires
            ((x >> 56u64) & 0xff) as u8 == ((y >> 56u64) & 0xff) as u8,
            ((x >> 48u64) & 0xff) as u8 == ((y >> 48u64) & 0xff) as u8,
            ((x >> 40u64) & 0xff) as u8 == ((y >> 40u64) & 0xff) as u8,
            ((x >> 32u64) & 0xff) as u8 == ((y >> 32u64) & 0xff) as u8,
            ((x >> 24u64) & 0xff) as u8 == ((y >> 24u64) & 0xff) as u8,
            ((x >> 16u64) & 0xff) as u8 == ((y >> 16u64) & 0xff) as u8,
            ((x >> 8u64) & 0xff) as u8 == ((y >> 8u64) & 0xff) as u8,
            ((x >> 0u64) & 0xff) as u8 == ((y >> 0u64) & 0xff) as u8,
    ;
}

/// Law of links: wormholes opened between the same nebulae at the same ledger
/// sequence but at different times get different verifiable links.
pub proof fn lemma_links_differ_by_time(origin: u64, destination: u64, sequence: u32, t1: u64, t2: u64)
    requires
        t1 != t2,
    ensures
        wormhole_link(origin, destination, sequence, t1) != wormhole_link(origin, destination, sequence, t2),
{
    let l1 = wormhole_link(origin, destination, sequence, t1);
    let l2 = wormhole_link(origin, destination, sequence, t2);
    if l1 == l2 {
        assert forall|k: int| 0 <= k < 8 implies #[trigger] u64_byte(t1, k) == u64_byte(t2, k) by {
            assert(l1[k + 24] == l2[k + 24]);
        }
        lemma_u64_bytes_determine(t1, t2);
    }
}

} // verus!
