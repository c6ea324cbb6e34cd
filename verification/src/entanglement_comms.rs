use vstd::prelude::*;
use std::collections::HashMap;
use crate::types::Address;

verus! {

broadcast use vstd::std_specs::hash::group_hash_axioms;

/// Pair lifetime: 30 days in seconds.
pub const PAIR_LIFETIME_SECS: u64 = 2_592_000;
/// Maximum messages sent in one burst call.
pub const MAX_MESSAGE_BURST: u32 = 20;

/// Errors of entangled communication.
#[derive(Clone, Copy, Debug, PartialEq, Eq, Structural)]
pub enum EntanglementError {
    /// The entanglement pair has expired or was never active.
    PairNotActive,
    /// Caller is not a participant of this pair.
    NotAuthorized,
    /// Pair does not exist.
    PairNotFound,
    /// A ship cannot be entangled with itself.
    SameShip,
    /// Burst size exceeded MAX_MESSAGE_BURST.
    BurstTooLarge,
    /// Message batch is empty.
    EmptyBatch,
}

/// Two ships linked for messaging until the pair expires or is dissolved.
#[derive(Clone, Copy, Debug, PartialEq, Eq, Structural)]
pub struct EntanglementPair {
    pub id: u64,
    pub ship_a: u64,
    pub ship_b: u64,
    /// Addresses authorized to send on behalf of each ship.
    pub owner_a: Address,
    pub owner_b: Address,
    pub created_at: u64,
    /// Pair expires at this ledger timestamp.
    pub expires_at: u64,
    pub active: bool,
}

/// A message sent over a pair.
#[derive(Clone, Copy, Debug)]
pub struct EntangledMessage {
    pub pair_id: u64,
    pub sender_ship: u64,
    /// 64-byte encrypted payload.
    pub payload: [u8; 64],
    pub sent_at: u64,
    pub sequence: u64,
}

/// The pairs by id, the pair counter and the number of messages sent over
/// each pair.
pub struct EntanglementStore {
    pub pairs: HashMap<u64, EntanglementPair>,
    pub counter: u64,
    pub msg_counts: HashMap<u64, u64>,
}

/// Whether `pair` may carry messages at `now`.
pub open spec fn pair_active(pair: EntanglementPair, now: u64) -> bool {
    pair.active && now <= pair.expires_at
}

/// The ship `caller` speaks for in `pair`, if any (the first ship wins when
/// one address owns both).
pub open spec fn participant_ship(pair: EntanglementPair, caller: Address) -> Option<u64> {
    if caller == pair.owner_a {
        Some(pair.ship_a)
    } else if caller == pair.owner_b {
        Some(pair.ship_b)
    } else {
        None
    }
}

/// Messages sent over a pair so far.
pub open spec fn count_of(m: Map<u64, u64>, pair_id: u64) -> u64 {
    if m.contains_key(pair_id) {
        m[pair_id]
    } else {
        0
    }
}

/// What sending over `pair_id` by `caller` at `now` fails with, if anything.
pub open spec fn send_error(pairs: Map<u64, EntanglementPair>, pair_id: u64, caller: Address, now: u64) -> Option<EntanglementError> {
    if !pairs.contains_key(pair_id) {
        Some(EntanglementError::PairNotFound)
    } else if !pair_active(pairs[pair_id], now) {
        Some(EntanglementError::PairNotActive)
    } else if participant_ship(pairs[pair_id], caller) is None {
        Some(EntanglementError::NotAuthorized)
    } else {
        None
    }
}

impl EntanglementStore {
    /// A store without pairs.
    pub fn new() -> (s: EntanglementStore)
        ensures
            s.pairs@ == Map::<u64, EntanglementPair>::empty(),
            s.counter == 0,
            s.msg_counts@ == Map::<u64, u64>::empty(),
    {
        EntanglementStore { pairs: HashMap::new(), counter: 0, msg_counts: HashMap::new() }
    }
}

/// `Ok` when `pair` may carry messages at `now`.
pub fn require_active_pair(pair: &EntanglementPair, now: u64) -> (r: Result<(), EntanglementError>)
    ensures
        pair_active(*pair, now) ==> r == Ok::<(), EntanglementError>(()),
        !pair_active(*pair, now) ==> r == Err::<(), EntanglementError>(EntanglementError::PairNotActive),
{
    if !pair.active || now > pair.expires_at {
        return Err(EntanglementError::PairNotActive);
    }
    Ok(())
}

/// The ship `caller` speaks for in `pair`, or `NotAuthorized`.
pub fn require_participant(pair: &EntanglementPair, caller: &Address) -> (r: Result<u64, EntanglementError>)
    ensures
        r == (match participant_ship(*pair, *caller) {
            Some(s) => Ok::<u64, EntanglementError>(s),
            None => Err(EntanglementError::NotAuthorized),
        }),
{
    if *caller == pair.owner_a {
        return Ok(pair.ship_a);
    }
    if *caller == pair.owner_b {
        return Ok(pair.ship_b);
    }
    Err(EntanglementError::NotAuthorized)
}

/// Entangle two distinct ships at `now`; the pair lives thirty days.
pub fn create_entanglement_pair(
    store: &mut EntanglementStore,
    owner_a: &Address,
    ship_a: u64,
    owner_b: &Address,
    ship_b: u64,
    now: u64,
) -> (r: Result<u64, EntanglementError>)
    requires
        ship_a != ship_b ==> old(store).counter < u64::MAX && now + PAIR_LIFETIME_SECS <= u64::MAX,
    ensures
        ship_a == ship_b ==> r == Err::<u64, EntanglementError>(EntanglementError::SameShip)
            && final(store).pairs@ == old(store).pairs@
            && final(store).counter == old(store).counter
            && final(store).msg_counts@ == old(store).msg_counts@,
        ship_a != ship_b ==> {
            let id = old(store).counter;
            let pair = EntanglementPair {
                id,
                ship_a,
                ship_b,
                owner_a: *owner_a,
                owner_b: *owner_b,
                created_at: now,
                expires_at: (now + PAIR_LIFETIME_SECS) as u64,
                active: true,
            };
            &&& r == Ok::<u64, EntanglementError>(id)
            &&& final(store).pairs@ == old(store).pairs@.insert(id, pair)
            &&& final(store).counter == id + 1
            &&& final(store).msg_counts@ == old(store).msg_counts@.insert(id, 0)
        },
{
    if ship_a == ship_b {
        return Err(EntanglementError::SameShip);
    }
    let pair_id = store.counter;
    let pair = EntanglementPair {
        id: pair_id,
        ship_a,
        ship_b,
        owner_a: *owner_a,
        owner_b: *owner_b,
        created_at: now,
        expires_at: now + PAIR_LIFETIME_SECS,
        active: true,
    };
    store.pairs.insert(pair_id, pair);
    store.counter = pair_id + 1;
    store.msg_counts.insert(pair_id, 0);
    Ok(pair_id)
}

/// Send one encrypted 64-byte message over an active pair (participants
/// only); the payload is never read. Returns the message's sequence number.
pub fn send_entangled_message(
    store: &mut EntanglementStore,
    caller: &Address,
    pair_id: u64,
    message: &[u8; 64],
    now: u64,
) -> (r: Result<u64, EntanglementError>)
    requires
        count_of(old(store).msg_counts@, pair_id) < u64::MAX,
    ensures
        send_error(old(store).pairs@, pair_id, *caller, now) matches Some(e) ==> r == Err::<u64, EntanglementError>(e)
            && final(store).msg_counts@ == old(store).msg_counts@,
        send_error(old(store).pairs@, pair_id, *caller, now) is None ==> {
            let n = (count_of(old(store).msg_counts@, pair_id) + 1) as u64;
            &&& r == Ok::<u64, EntanglementError>(n)
            &&& final(store).msg_counts@ == old(store).msg_counts@.insert(pair_id, n)
        },
        final(store).pairs@ == old(store).pairs@,
        final(store).counter == old(store).counter,
{
    let pair = match store.pairs.get(&pair_id) {
        Some(p) => *p,
        None => return Err(EntanglementError::PairNotFound),
    };
    require_active_pair(&pair, now)?;
    let _sender_ship = require_participant(&pair, caller)?;
    let seq: u64 = match store.msg_counts.get(&pair_id) {
        Some(c) => *c,
        None => 0,
    };
    let new_seq = seq + 1;
    store.msg_counts.insert(pair_id, new_seq);
    Ok(new_seq)
}

/// Send up to twenty messages in one call; nothing is sent when any would
/// fail. Returns the sequence number of the last one.
pub fn send_entangled_message_batch(
    store: &mut EntanglementStore,
    caller: &Address,
    pair_id: u64,
    messages: &Vec<[u8; 64]>,
    now: u64,
) -> (r: Result<u64, EntanglementError>)
    requires
        count_of(old(store).msg_counts@, pair_id) + messages@.len() <= u64::MAX,
    ensures
        messages@.len() == 0 ==> r == Err::<u64, EntanglementError>(EntanglementError::EmptyBatch),
        messages@.len() > MAX_MESSAGE_BURST ==> r == Err::<u64, EntanglementError>(EntanglementError::BurstTooLarge),
        0 < messages@.len() <= MAX_MESSAGE_BURST && send_error(old(store).pairs@, pair_id, *caller, now) is Some
            ==> r == Err::<u64, EntanglementError>(send_error(old(store).pairs@, pair_id, *caller, now)->0),
        r is Err ==> final(store).msg_counts@ == old(store).msg_counts@,
        0 < messages@.len() <= MAX_MESSAGE_BURST && send_error(old(store).pairs@, pair_id, *caller, now) is None ==> {
            let n = (count_of(old(store).msg_counts@, pair_id) + messages@.len()) as u64;
            &&& r == Ok::<u64, EntanglementError>(n)
            &&& final(store).msg_counts@ == old(store).msg_counts@.insert(pair_id, n)
        },
        final(store).pairs@ == old(store).pairs@,
        final(store).counter == old(store).counter,
{
    let n = messages.len();
    if n == 0 {
        return Err(EntanglementError::EmptyBatch);
    }
    if n > MAX_MESSAGE_BURST as usize {
        return Err(EntanglementError::BurstTooLarge);
    }
    let mut last_seq: u64 = 0;
    let ghost c0 = count_of(store.msg_counts@, pair_id);
    let mut i: usize = 0;
    while i < n
        invariant
            0 <= i <= n,
            n == messages@.len(),
            0 < n <= MAX_MESSAGE_BURST,
            c0 + n <= u64::MAX,
            store.pairs@ == old(store).pairs@,
            store.counter == old(store).counter,
            i == 0 ==> store.msg_counts@ == old(store).msg_counts@,
            i > 0 ==> send_error(old(store).pairs@, pair_id, *caller, now) is None
                && last_seq == c0 + i
                && store.msg_counts@ == old(store).msg_counts@.insert(pair_id, last_seq),
            c0 == count_of(old(store).msg_counts@, pair_id),
        decreases n - i,
    {
        last_seq = send_entangled_message(store, caller, pair_id, &messages[i], now)?;
        i += 1;
    }
    Ok(last_seq)
}

/// Deactivate a pair before it expires (either participant).
pub fn dissolve_pair(store: &mut EntanglementStore, caller: &Address, pair_id: u64) -> (r: Result<(), EntanglementError>)
    ensures
        !old(store).pairs@.contains_key(pair_id) ==> r == Err::<(), EntanglementError>(EntanglementError::PairNotFound),
        old(store).pairs@.contains_key(pair_id) && participant_ship(old(store).pairs@[pair_id], *caller) is None
            ==> r == Err::<(), EntanglementError>(EntanglementError::NotAuthorized),
        r is Err ==> final(store).pairs@ == old(store).pairs@,
        old(store).pairs@.contains_key(pair_id) && participant_ship(old(store).pairs@[pair_id], *caller) is Some
            ==> r == Ok::<(), EntanglementError>(())
            && final(store).pairs@ == old(store).pairs@.insert(pair_id, EntanglementPair { active: false, ..old(store).pairs@[pair_id] }),
        final(store).counter == old(store).counter,
        final(store).msg_counts@ == old(store).msg_counts@,
{
    let mut pair = match store.pairs.get(&pair_id) {
        Some(p) => *p,
        None => return Err(EntanglementError::PairNotFound),
    };
    require_participant(&pair, caller)?;
    pair.active = false;
    store.pairs.insert(pair_id, pair);
    Ok(())
}

/// A pair by id.
pub fn get_entanglement_pair(store: &EntanglementStore, pair_id: u64) -> (r: Result<EntanglementPair, EntanglementError>)
    ensures
        store.pairs@.contains_key(pair_id) ==> r == Ok::<EntanglementPair, EntanglementError>(store.pairs@[pair_id]),
        !store.pairs@.contains_key(pair_id) ==> r == Err::<EntanglementPair, EntanglementError>(EntanglementError::PairNotFound),
{
    match store.pairs.get(&pair_id) {
        Some(p) => Ok(*p),
        None => Err(EntanglementError::PairNotFound),
    }
}

/// Messages sent over a pair so far.
pub fn get_message_count(store: &EntanglementStore, pair_id: u64) -> (r: u64)
    ensures
        r == count_of(store.msg_counts@, pair_id),
{
    match store.msg_counts.get(&pair_id) {
        Some(c) => *c,
        None => 0,
    }
}

/// Law of entanglement: a dissolved pair carries no further messages.
pub proof fn lemma_dissolved_pair_is_silent(pairs: Map<u64, EntanglementPair>, pair_id: u64, caller: Address, now: u64)
    requires
        pairs.contains_key(pair_id),
    ensures
        send_error(pairs.insert(pair_id, EntanglementPair { active: false, ..pairs[pair_id] }), pair_id, caller, now)
            == Some(EntanglementError::PairNotActive),
{
}

} // verus!
