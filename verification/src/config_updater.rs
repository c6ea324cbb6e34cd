use vstd::prelude::*;
use std::collections::HashMap;
use crate::types::Address;

verus! {

broadcast use vstd::std_specs::hash::group_hash_axioms;

/// Seconds a proposed config change waits by default before it can be applied.
pub const CONFIG_DELAY_SECONDS: u64 = 3600;
/// Maximum parameters accepted in a single batch-update call.
pub const MAX_BATCH_PARAMS: u32 = 5;
/// Default number of signer approvals required to apply a change.
pub const DEFAULT_MIN_APPROVALS: u32 = 2;

/// Errors of the config updater.
#[derive(Clone, Copy, Debug, PartialEq, Eq, Structural)]
pub enum ConfigError {
    NotInitialized,
    AlreadyInitialized,
    /// Param name not in the allowed-parameter whitelist
    InvalidParam,
    Unauthorized,
    /// Change is proposed but waiting for enough approvals
    PendingApproval,
    /// Change has approvals but the time lock has not yet expired
    TimeLockActive,
    /// Batch exceeds MAX_BATCH_PARAMS
    BatchTooLarge,
    /// No pending update for this param
    NoPendingUpdate,
    /// Signer has already approved this param update
    AlreadyApproved,
}

/// A proposed, not yet live, config change.
#[derive(Debug)]
pub struct PendingConfig {
    pub param: String,
    pub new_value: [u8; 64],
    /// Timestamp when the proposal was created
    pub proposed_at: u64,
    /// Earliest ledger timestamp at which apply is allowed
    pub apply_after: u64,
    /// Current approval count
    pub approvals: u32,
}

impl Clone for PendingConfig {
    fn clone(&self) -> (r: PendingConfig)
        ensures
            r == *self,
    {
        PendingConfig {
            param: self.param.clone(),
            new_value: self.new_value,
            proposed_at: self.proposed_at,
            apply_after: self.apply_after,
            approvals: self.approvals,
        }
    }
}

/// A confirmed, live config entry.
#[derive(Debug)]
pub struct LiveConfig {
    pub param: String,
    pub value: [u8; 64],
    /// Timestamp when this value became active
    pub applied_at: u64,
    /// Number of approvals it received before going live
    pub approvals: u32,
}

impl Clone for LiveConfig {
    fn clone(&self) -> (r: LiveConfig)
        ensures
            r == *self,
    {
        LiveConfig { param: self.param.clone(), value: self.value, applied_at: self.applied_at, approvals: self.approvals }
    }
}

/// One entry in a batch-update request.
#[derive(Debug)]
pub struct ConfigUpdate {
    pub param: String,
    pub value: [u8; 64],
}

/// Configuration of the updater itself.
#[derive(Clone, Copy, Debug, PartialEq, Eq, Structural)]
pub struct UpdaterConfig {
    pub admin: Address,
    /// Seconds between proposal and earliest apply time
    pub delay_seconds: u64,
    /// Approvals required before apply is possible
    pub min_approvals: u32,
}

/// Everything recorded about one parameter: its live value, its pending
/// change, and the signers who approved the current proposal.
#[derive(Debug)]
pub struct ParamEntry {
    pub param: String,
    pub live: Option<LiveConfig>,
    pub pending: Option<PendingConfig>,
    pub approvers: Vec<u64>,
}

/// The updater's configuration (once initialised), its signers, and one
/// entry per parameter ever proposed.
pub struct ConfigStore {
    pub meta: Option<UpdaterConfig>,
    pub signers: HashMap<u64, bool>,
    pub entries: Vec<ParamEntry>,
}

/// A live value: value bytes, time applied, approvals.
pub type LiveView = (Seq<u8>, u64, u32);
/// A pending change: value bytes, time proposed, earliest apply time, approvals.
pub type PendingView = (Seq<u8>, u64, u64, u32);
/// What is recorded of a parameter: live value, pending change, approvers.
pub type EntryView = (Option<LiveView>, Option<PendingView>, Seq<u64>);

/// The plain values of a live entry.
pub open spec fn live_view(l: Option<LiveConfig>) -> Option<LiveView> {
    match l {
        Some(x) => Some((x.value@, x.applied_at, x.approvals)),
        None => None,
    }
}

/// The plain values of a pending change.
pub open spec fn pending_view(p: Option<PendingConfig>) -> Option<PendingView> {
    match p {
        Some(x) => Some((x.new_value@, x.proposed_at, x.apply_after, x.approvals)),
        None => None,
    }
}

/// The plain values of an entry.
pub open spec fn entry_view(e: ParamEntry) -> EntryView {
    (live_view(e.live), pending_view(e.pending), e.approvers@)
}

/// Every parameter recorded, with what is recorded of it.
pub open spec fn entries_view(es: Seq<ParamEntry>) -> Map<Seq<char>, EntryView>
    decreases es.len(),
{
    if es.len() == 0 {
        Map::empty()
    } else {
        entries_view(es.drop_last()).insert(es.last().param@, entry_view(es.last()))
    }
}

/// Approvals of a pending change.
pub open spec fn approvals_of(p: PendingView) -> u32 {
    p.3
}

/// Earliest apply time of a pending change.
pub open spec fn apply_after_of(p: PendingView) -> u64 {
    p.2
}

/// What is recorded of `name` (nothing, for a parameter never proposed).
pub open spec fn entry_of(m: Map<Seq<char>, EntryView>, name: Seq<char>) -> EntryView {
    if m.contains_key(name) {
        m[name]
    } else {
        (None, None, Seq::empty())
    }
}

/// The parameters after proposing `value` for `name` at `now` with the
/// given delay: a fresh pending change with no approvals.
pub open spec fn proposed(m: Map<Seq<char>, EntryView>, name: Seq<char>, value: Seq<u8>, now: u64, delay: u64) -> Map<Seq<char>, EntryView> {
    m.insert(name, (entry_of(m, name).0, Some((value, now, (now + delay) as u64, 0u32)), Seq::empty()))
}

/// The parameters after proposing the first `k` updates of a batch.
pub open spec fn proposed_batch(m: Map<Seq<char>, EntryView>, updates: Seq<ConfigUpdate>, now: u64, delay: u64, k: int) -> Map<Seq<char>, EntryView>
    decreases k,
{
    if k <= 0 {
        m
    } else {
        let u = updates[k - 1];
        proposed(proposed_batch(m, updates, now, delay, k - 1), u.param@, u.value@, now, delay)
    }
}

/// Whether `id` is a registered signer.
pub open spec fn signer_in(signers: Map<u64, bool>, id: u64) -> bool {
    signers.contains_key(id) && signers[id]
}

impl ConfigStore {
    /// Well-formedness: one entry per parameter, and every record inside an
    /// entry names that entry's parameter.
    pub open spec fn wf(&self) -> bool {
        &&& forall|i: int, j: int| 0 <= i < j < self.entries@.len()
            ==> (#[trigger] self.entries@[i]).param@ != (#[trigger] self.entries@[j]).param@
        &&& forall|i: int| 0 <= i < self.entries@.len() ==> {
            &&& ((#[trigger] self.entries@[i]).live matches Some(l) ==> l.param@ == self.entries@[i].param@)
            &&& (self.entries@[i].pending matches Some(p) ==> p.param@ == self.entries@[i].param@)
        }
    }

    /// The recorded parameters.
    pub open spec fn params(&self) -> Map<Seq<char>, EntryView> {
        entries_view(self.entries@)
    }

    /// An updater that was never initialised.
    pub fn new() -> (s: ConfigStore)
        ensures
            s.wf(),
            s.meta is None,
            s.signers@ == Map::<u64, bool>::empty(),
            s.params() == Map::<Seq<char>, EntryView>::empty(),
    {
        ConfigStore { meta: None, signers: HashMap::new(), entries: Vec::new() }
    }
}

/// The updater's configuration, or `NotInitialized`.
pub fn require_meta(store: &ConfigStore) -> (r: Result<UpdaterConfig, ConfigError>)
    ensures
        r == (match store.meta {
            Some(m) => Ok::<UpdaterConfig, ConfigError>(m),
            None => Err(ConfigError::NotInitialized),
        }),
{
    match store.meta {
        Some(m) => Ok(m),
        None => Err(ConfigError::NotInitialized),
    }
}

/// Whether `addr` is a registered signer.
pub fn is_signer(store: &ConfigStore, addr: &Address) -> (r: bool)
    ensures
        r == signer_in(store.signers@, addr.id),
{
    match store.signers.get(&addr.id) {
        Some(b) => *b,
        None => false,
    }
}

/// Initialise the updater with its admin, initial signers, time lock and
/// approval threshold. Must be called once.
pub fn initialize_config(store: &mut ConfigStore, admin: &Address, signers: &Vec<Address>, delay_seconds: u64, min_approvals: u32) -> (r: Result<(), ConfigError>)
    requires
        old(store).wf(),
    ensures
        final(store).wf(),
        old(store).meta is Some ==> r == Err::<(), ConfigError>(ConfigError::AlreadyInitialized)
            && final(store).meta == old(store).meta
            && final(store).signers@ == old(store).signers@,
        old(store).meta is None ==> r == Ok::<(), ConfigError>(())
            && final(store).meta == Some(UpdaterConfig { admin: *admin, delay_seconds, min_approvals })
            && final(store).signers@.dom() == old(store).signers@.dom().union(Set::new(|k: u64| exists|i: int| 0 <= i < signers@.len() && (#[trigger] signers@[i]).id == k))
            && (forall|i: int| 0 <= i < signers@.len() ==> #[trigger] signer_in(final(store).signers@, signers@[i].id))
            && (forall|k: u64| (forall|i: int| 0 <= i < signers@.len() ==> (#[trigger] signers@[i]).id != k)
                ==> final(store).signers@.get(k) == old(store).signers@.get(k)),
        final(store).entries@ == old(store).entries@,
{
    if store.meta.is_some() {
        return Err(ConfigError::AlreadyInitialized);
    }
    store.meta = Some(UpdaterConfig { admin: *admin, delay_seconds, min_approvals });
    let ghost s0 = store.signers@;
    let mut i: usize = 0;
    while i < signers.len()
        invariant
            0 <= i <= signers@.len(),
            store.signers@.dom() == s0.dom().union(Set::new(|k: u64| exists|j: int| 0 <= j < i && (#[trigger] signers@[j]).id == k)),
            forall|j: int| 0 <= j < i ==> #[trigger] signer_in(store.signers@, signers@[j].id),
            forall|k: u64| (forall|j: int| 0 <= j < i ==> (#[trigger] signers@[j]).id != k)
                ==> store.signers@.get(k) == s0.get(k),
            store.meta == Some(UpdaterConfig { admin: *admin, delay_seconds, min_approvals }),
            store.entries@ == old(store).entries@,
        decreases signers@.len() - i,
    {
        let s = signers[i];
        let ghost prev = store.signers@;
        store.signers.insert(s.id, true);
        i += 1;
        proof {
            assert forall|j: int| 0 <= j < i implies #[trigger] signer_in(store.signers@, signers@[j].id) by {
                if j < i - 1 {
                    assert(signer_in(prev, signers@[j].id));
                }
            }
            assert(store.signers@.dom() =~= s0.dom().union(Set::new(|k: u64| exists|j: int| 0 <= j < i && (#[trigger] signers@[j]).id == k))) by {
                assert forall|k: u64| #[trigger] store.signers@.dom().contains(k) implies
                    s0.dom().union(Set::new(|k: u64| exists|j: int| 0 <= j < i && (#[trigger] signers@[j]).id == k)).contains(k) by {
                    if k == s.id {
                        assert(signers@[i - 1].id == k);
                    }
                }
            }
        }
    }
    Ok(())
}

/// Add a signer (admin only).
pub fn add_signer(store: &mut ConfigStore, admin: &Address, signer: &Address) -> (r: Result<(), ConfigError>)
    ensures
        old(store).meta is None ==> r == Err::<(), ConfigError>(ConfigError::NotInitialized),
        old(store).meta is Some && old(store).meta->0.admin != *admin ==> r == Err::<(), ConfigError>(ConfigError::Unauthorized),
        r is Err ==> final(store).signers@ == old(store).signers@,
        old(store).meta is Some && old(store).meta->0.admin == *admin ==> r == Ok::<(), ConfigError>(())
            && final(store).signers@ == old(store).signers@.insert(signer.id, true),
        final(store).meta == old(store).meta,
        final(store).entries@ == old(store).entries@,
{
    let cfg = require_meta(store)?;
    if cfg.admin != *admin {
        return Err(ConfigError::Unauthorized);
    }
    store.signers.insert(signer.id, true);
    Ok(())
}

/// Remove a signer (admin only).
pub fn remove_signer(store: &mut ConfigStore, admin: &Address, signer: &Address) -> (r: Result<(), ConfigError>)
    ensures
        old(store).meta is None ==> r == Err::<(), ConfigError>(ConfigError::NotInitialized),
        old(store).meta is Some && old(store).meta->0.admin != *admin ==> r == Err::<(), ConfigError>(ConfigError::Unauthorized),
        r is Err ==> final(store).signers@ == old(store).signers@,
        old(store).meta is Some && old(store).meta->0.admin == *admin ==> r == Ok::<(), ConfigError>(())
            && final(store).signers@ == old(store).signers@.remove(signer.id),
        final(store).meta == old(store).meta,
        final(store).entries@ == old(store).entries@,
{
    let cfg = require_meta(store)?;
    if cfg.admin != *admin {
        return Err(ConfigError::Unauthorized);
    }
    store.signers.remove(&signer.id);
    Ok(())
}

/// Position of the entry of `name`, if any.
fn find_entry(entries: &Vec<ParamEntry>, name: &String) -> (r: Option<usize>)
    ensures
        r is Some ==> r->0 < entries@.len() && entries@[r->0 as int].param@ == name@,
        r is None ==> forall|i: int| 0 <= i < entries@.len() ==> #[trigger] entries@[i].param@ != name@,
{
    let mut i: usize = 0;
    while i < entries.len()
        invariant
            0 <= i <= entries@.len(),
            forall|k: int| 0 <= k < i ==> #[trigger] entries@[k].param@ != name@,
        decreases entries@.len() - i,
    {
        if entries[i].param == *name {
            return Some(i);
        }
        i += 1;
    }
    None
}

/// Record a proposal (the caller checked authority).
fn record_proposal(store: &mut ConfigStore, param: &String, value: [u8; 64], now: u64, delay: u64)
    requires
        old(store).wf(),
        now + delay <= u64::MAX,
    ensures
        final(store).wf(),
        final(store).params() == proposed(old(store).params(), param@, value@, now, delay),
        final(store).meta == old(store).meta,
        final(store).signers@ == old(store).signers@,
{
    let pending = PendingConfig { param: param.clone(), new_value: value, proposed_at: now, apply_after: now + delay, approvals: 0 };
    let ghost before = store.entries@;
    proof { lemma_entries_keys(before); }
    match find_entry(&store.entries, param) {
        Some(i) => {
            store.entries[i].pending = Some(pending);
            store.entries[i].approvers = Vec::new();
            proof {
                let e = store.entries@[i as int];
                assert(store.entries@ == before.update(i as int, e));
                lemma_entries_update(before, i as int, e);
                assert forall|a: int, b: int| 0 <= a < b < store.entries@.len() implies
                    (#[trigger] store.entries@[a]).param@ != (#[trigger] store.entries@[b]).param@ by {
                    assert(before[a].param@ != before[b].param@);
                }
                assert(entries_view(store.entries@) =~= proposed(entries_view(before), param@, value@, now, delay));
            }
        },
        None => {
            store.entries.push(ParamEntry { param: param.clone(), live: None, pending: Some(pending), approvers: Vec::new() });
            proof {
                assert(store.entries@.drop_last() =~= before);
                assert(entries_view(store.entries@) =~= proposed(entries_view(before), param@, value@, now, delay));
            }
        },
    }
}

/// Propose a change of `param` to `value` at `now` (admin or signer). It
/// can be applied once it has enough approvals and its time lock has run
/// out; earlier approvals of the parameter no longer count.
pub fn update_config(store: &mut ConfigStore, caller: &Address, param: &String, value: [u8; 64], now: u64) -> (r: Result<(), ConfigError>)
    requires
        old(store).wf(),
        old(store).meta is Some ==> now + old(store).meta->0.delay_seconds <= u64::MAX,
    ensures
        final(store).wf(),
        old(store).meta is None ==> r == Err::<(), ConfigError>(ConfigError::NotInitialized),
        old(store).meta is Some && old(store).meta->0.admin != *caller && !signer_in(old(store).signers@, caller.id)
            ==> r == Err::<(), ConfigError>(ConfigError::Unauthorized),
        r is Err ==> final(store).params() == old(store).params(),
        old(store).meta is Some && (old(store).meta->0.admin == *caller || signer_in(old(store).signers@, caller.id))
            ==> r == Ok::<(), ConfigError>(())
            && final(store).params() == proposed(old(store).params(), param@, value@, now, old(store).meta->0.delay_seconds),
        final(store).meta == old(store).meta,
        final(store).signers@ == old(store).signers@,
{
    let cfg = require_meta(store)?;
    let is_admin = cfg.admin == *caller;
    if !is_admin && !is_signer(store, caller) {
        return Err(ConfigError::Unauthorized);
    }
    record_proposal(store, param, value, now, cfg.delay_seconds);
    Ok(())
}

/// Approve the pending change of `param` (signers only, once each per
/// proposal). Returns the new approval count.
pub fn approve_config_update(store: &mut ConfigStore, signer: &Address, param: &String) -> (r: Result<u32, ConfigError>)
    requires
        old(store).wf(),
        entry_of(old(store).params(), param@).1 matches Some(p) ==> p.3 < u32::MAX,
    ensures
        final(store).wf(),
        ({
            let e = entry_of(old(store).params(), param@);
            if !signer_in(old(store).signers@, signer.id) {
                r == Err::<u32, ConfigError>(ConfigError::Unauthorized)
            } else if e.2.contains(signer.id) {
                r == Err::<u32, ConfigError>(ConfigError::AlreadyApproved)
            } else if e.1 is None {
                r == Err::<u32, ConfigError>(ConfigError::NoPendingUpdate)
            } else {
                let p = e.1->0;
                let count = (p.3 + 1) as u32;
                &&& r == Ok::<u32, ConfigError>(count)
                &&& final(store).params() == old(store).params().insert(
                    param@,
                    (e.0, Some((p.0, p.1, p.2, count)), e.2.push(signer.id)),
                )
            }
        }),
        r is Err ==> final(store).params() == old(store).params(),
        final(store).meta == old(store).meta,
        final(store).signers@ == old(store).signers@,
{
    if !is_signer(store, signer) {
        return Err(ConfigError::Unauthorized);
    }
    let ghost before = store.entries@;
    proof { lemma_entries_keys(before); }
    let i = match find_entry(&store.entries, param) {
        Some(i) => i,
        None => return Err(ConfigError::NoPendingUpdate),
    };
    let mut k: usize = 0;
    while k < store.entries[i].approvers.len()
        invariant
            0 <= k <= before[i as int].approvers@.len(),
            i < before.len(),
            store.entries@ == before,
            before == old(store).entries@,
            store.meta == old(store).meta,
            store.signers@ == old(store).signers@,
            store.wf(),
            signer_in(store.signers@, signer.id),
            entries_view(before).contains_key(param@),
            entries_view(before)[param@] == entry_view(before[i as int]),
            forall|j: int| 0 <= j < k ==> before[i as int].approvers@[j] != signer.id,
        decreases before[i as int].approvers@.len() - k,
    {
        if store.entries[i].approvers[k] == signer.id {
            return Err(ConfigError::AlreadyApproved);
        }
        k += 1;
    }
    let mut pending = match &store.entries[i].pending {
        Some(p) => p.clone(),
        None => return Err(ConfigError::NoPendingUpdate),
    };
    pending.approvals = pending.approvals + 1;
    let count = pending.approvals;
    store.entries[i].pending = Some(pending);
    store.entries[i].approvers.push(signer.id);
    proof {
        let e = store.entries@[i as int];
        assert(store.entries@ == before.update(i as int, e));
        lemma_entries_update(before, i as int, e);
        assert forall|a: int, b: int| 0 <= a < b < store.entries@.len() implies
            (#[trigger] store.entries@[a]).param@ != (#[trigger] store.entries@[b]).param@ by {
            assert(before[a].param@ != before[b].param@);
        }
    }
    Ok(count)
}

/// Apply the pending change of `param` at `now`, once it has enough
/// approvals and its time lock has run out; it becomes the live value.
pub fn apply_config_update(store: &mut ConfigStore, param: &String, now: u64) -> (r: Result<LiveConfig, ConfigError>)
    requires
        old(store).wf(),
    ensures
        final(store).wf(),
        ({
            let e = entry_of(old(store).params(), param@);
            if old(store).meta is None {
                r == Err::<LiveConfig, ConfigError>(ConfigError::NotInitialized)
            } else if e.1 is None {
                r == Err::<LiveConfig, ConfigError>(ConfigError::NoPendingUpdate)
            } else if approvals_of(e.1->0) < old(store).meta->0.min_approvals {
                r == Err::<LiveConfig, ConfigError>(ConfigError::PendingApproval)
            } else if now < apply_after_of(e.1->0) {
                r == Err::<LiveConfig, ConfigError>(ConfigError::TimeLockActive)
            } else {
                let p = e.1->0;
                &&& r is Ok
                &&& r->Ok_0.param@ == param@
                &&& r->Ok_0.value@ == p.0
                &&& r->Ok_0.applied_at == now
                &&& r->Ok_0.approvals == p.3
                &&& final(store).params() == old(store).params().insert(param@, (Some((p.0, now, p.3)), None, e.2))
            }
        }),
        r is Err ==> final(store).params() == old(store).params(),
        final(store).meta == old(store).meta,
        final(store).signers@ == old(store).signers@,
{
    let cfg = require_meta(store)?;
    let ghost before = store.entries@;
    proof { lemma_entries_keys(before); }
    let i = match find_entry(&store.entries, param) {
        Some(i) => i,
        None => return Err(ConfigError::NoPendingUpdate),
    };
    let pending = match &store.entries[i].pending {
        Some(p) => p.clone(),
        None => return Err(ConfigError::NoPendingUpdate),
    };
    if pending.approvals < cfg.min_approvals {
        return Err(ConfigError::PendingApproval);
    }
    if now < pending.apply_after {
        return Err(ConfigError::TimeLockActive);
    }
    let live = LiveConfig { param: param.clone(), value: pending.new_value, applied_at: now, approvals: pending.approvals };
    store.entries[i].live = Some(live.clone());
    store.entries[i].pending = None;
    proof {
        let e = store.entries@[i as int];
        assert(store.entries@ == before.update(i as int, e));
        lemma_entries_update(before, i as int, e);
        assert forall|a: int, b: int| 0 <= a < b < store.entries@.len() implies
            (#[trigger] store.entries@[a]).param@ != (#[trigger] store.entries@[b]).param@ by {
            assert(before[a].param@ != before[b].param@);
        }
    }
    Ok(live)
}

/// Propose up to five changes in one call, in order; nothing changes when
/// the call fails. Returns the number proposed.
pub fn batch_update_config(store: &mut ConfigStore, caller: &Address, updates: &Vec<ConfigUpdate>, now: u64) -> (r: Result<u32, ConfigError>)
    requires
        old(store).wf(),
        old(store).meta is Some ==> now + old(store).meta->0.delay_seconds <= u64::MAX,
    ensures
        final(store).wf(),
        updates@.len() > MAX_BATCH_PARAMS ==> r == Err::<u32, ConfigError>(ConfigError::BatchTooLarge),
        0 < updates@.len() <= MAX_BATCH_PARAMS && old(store).meta is None
            ==> r == Err::<u32, ConfigError>(ConfigError::NotInitialized),
        0 < updates@.len() <= MAX_BATCH_PARAMS && old(store).meta is Some && old(store).meta->0.admin != *caller
            && !signer_in(old(store).signers@, caller.id) ==> r == Err::<u32, ConfigError>(ConfigError::Unauthorized),
        r is Err ==> final(store).params() == old(store).params(),
        updates@.len() == 0 ==> r == Ok::<u32, ConfigError>(0) && final(store).params() == old(store).params(),
        0 < updates@.len() <= MAX_BATCH_PARAMS && old(store).meta is Some && (old(store).meta->0.admin == *caller
            || signer_in(old(store).signers@, caller.id)) ==> r == Ok::<u32, ConfigError>(updates@.len() as u32)
            && final(store).params() == proposed_batch(
                old(store).params(),
                updates@,
                now,
                old(store).meta->0.delay_seconds,
                updates@.len() as int,
            ),
        final(store).meta == old(store).meta,
        final(store).signers@ == old(store).signers@,
{
    if updates.len() > MAX_BATCH_PARAMS as usize {
        return Err(ConfigError::BatchTooLarge);
    }
    let count = updates.len();
    if count == 0 {
        return Ok(0);
    }
    let cfg = require_meta(store)?;
    if cfg.admin != *caller && !is_signer(store, caller) {
        return Err(ConfigError::Unauthorized);
    }
    let ghost m0 = store.params();
    let mut i: usize = 0;
    while i < count
        invariant
            0 <= i <= count,
            count == updates@.len(),
            store.wf(),
            store.meta == old(store).meta,
            store.meta == Some(cfg),
            store.signers@ == old(store).signers@,
            now + cfg.delay_seconds <= u64::MAX,
            store.params() == proposed_batch(m0, updates@, now, cfg.delay_seconds, i as int),
        decreases count - i,
    {
        record_proposal(store, &updates[i].param, updates[i].value, now, cfg.delay_seconds);
        i += 1;
    }
    Ok(count as u32)
}

/// The live value of `param`, if any.
pub fn get_config_value(store: &ConfigStore, param: &String) -> (r: Option<[u8; 64]>)
    requires
        store.wf(),
    ensures
        entry_of(store.params(), param@).0 is None ==> r is None,
        entry_of(store.params(), param@).0 matches Some(l) ==> r is Some && r->0@ == l.0,
{
    proof { lemma_entries_keys(store.entries@); }
    match find_entry(&store.entries, param) {
        Some(i) => match &store.entries[i].live {
            Some(l) => Some(l.value),
            None => None,
        },
        None => None,
    }
}

/// The pending change of `param`, if any.
pub fn get_pending_update(store: &ConfigStore, param: &String) -> (r: Option<PendingConfig>)
    requires
        store.wf(),
    ensures
        pending_view(r) == entry_of(store.params(), param@).1,
        r matches Some(p) ==> p.param@ == param@,
{
    proof { lemma_entries_keys(store.entries@); }
    match find_entry(&store.entries, param) {
        Some(i) => match &store.entries[i].pending {
            Some(p) => Some(p.clone()),
            None => None,
        },
        None => None,
    }
}

/// The live entry of `param`, if any.
pub fn get_live_config(store: &ConfigStore, param: &String) -> (r: Option<LiveConfig>)
    requires
        store.wf(),
    ensures
        live_view(r) == entry_of(store.params(), param@).0,
        r matches Some(l) ==> l.param@ == param@,
{
    proof { lemma_entries_keys(store.entries@); }
    match find_entry(&store.entries, param) {
        Some(i) => match &store.entries[i].live {
            Some(l) => Some(l.clone()),
            None => None,
        },
        None => None,
    }
}

/// Cancel the pending change of `param` (admin only).
pub fn rollback_config(store: &mut ConfigStore, admin: &Address, param: &String) -> (r: Result<(), ConfigError>)
    requires
        old(store).wf(),
    ensures
        final(store).wf(),
        ({
            let e = entry_of(old(store).params(), param@);
            if old(store).meta is None {
                r == Err::<(), ConfigError>(ConfigError::NotInitialized)
            } else if old(store).meta->0.admin != *admin {
                r == Err::<(), ConfigError>(ConfigError::Unauthorized)
            } else if e.1 is None {
                r == Err::<(), ConfigError>(ConfigError::NoPendingUpdate)
            } else {
                &&& r == Ok::<(), ConfigError>(())
                &&& final(store).params() == old(store).params().insert(param@, (e.0, None, e.2))
            }
        }),
        r is Err ==> final(store).params() == old(store).params(),
        final(store).meta == old(store).meta,
        final(store).signers@ == old(store).signers@,
{
    let cfg = require_meta(store)?;
    if cfg.admin != *admin {
        return Err(ConfigError::Unauthorized);
    }
    let ghost before = store.entries@;
    proof { lemma_entries_keys(before); }
    let i = match find_entry(&store.entries, param) {
        Some(i) => i,
        None => return Err(ConfigError::NoPendingUpdate),
    };
    if store.entries[i].pending.is_none() {
        return Err(ConfigError::NoPendingUpdate);
    }
    store.entries[i].pending = None;
    proof {
        let e = store.entries@[i as int];
        assert(store.entries@ == before.update(i as int, e));
        lemma_entries_update(before, i as int, e);
        assert forall|a: int, b: int| 0 <= a < b < store.entries@.len() implies
            (#[trigger] store.entries@[a]).param@ != (#[trigger] store.entries@[b]).param@ by {
            assert(before[a].param@ != before[b].param@);
        }
    }
    Ok(())
}

/// The updater's configuration, if initialised.
pub fn get_updater_config(store: &ConfigStore) -> (r: Option<UpdaterConfig>)
    ensures
        r == store.meta,
{
    store.meta
}

/// The parameters of the view are those of the entries, each with the
/// values of its entry.
proof fn lemma_entries_keys(es: Seq<ParamEntry>)
    requires
        forall|i: int, j: int| 0 <= i < j < es.len() ==> (#[trigger] es[i]).param@ != (#[trigger] es[j]).param@,
    ensures
        forall|n: Seq<char>| #[trigger] entries_view(es).contains_key(n)
            <==> exists|i: int| 0 <= i < es.len() && es[i].param@ == n,
        forall|i: int| 0 <= i < es.len() ==> #[trigger] entries_view(es)[es[i].param@] == entry_view(es[i]),
    decreases es.len(),
{
    if es.len() > 0 {
        let pre = es.drop_last();
        lemma_entries_keys(pre);
        assert forall|n: Seq<char>| #[trigger] entries_view(es).contains_key(n)
            <==> exists|i: int| 0 <= i < es.len() && es[i].param@ == n by {
            if entries_view(pre).contains_key(n) {
                let i = choose|i: int| 0 <= i < pre.len() && pre[i].param@ == n;
                assert(es[i].param@ == n);
            }
            if exists|i: int| 0 <= i < es.len() && es[i].param@ == n {
                let i = choose|i: int| 0 <= i < es.len() && es[i].param@ == n;
                if i < es.len() - 1 {
                    assert(pre[i].param@ == n);
                }
            }
        }
        assert forall|i: int| 0 <= i < es.len() implies #[trigger] entries_view(es)[es[i].param@] == entry_view(es[i]) by {
            if i < es.len() - 1 {
                assert(pre[i] == es[i]);
                assert(es[i].param@ != es[es.len() - 1].param@);
                assert(entries_view(pre)[pre[i].param@] == entry_view(pre[i]));
            }
        }
    }
}

/// Replacing an entry by one of the same parameter changes only that parameter.
proof fn lemma_entries_update(es: Seq<ParamEntry>, i: int, e: ParamEntry)
    requires
        0 <= i < es.len(),
        e.param@ == es[i].param@,
        forall|a: int, b: int| 0 <= a < b < es.len() ==> (#[trigger] es[a]).param@ != (#[trigger] es[b]).param@,
    ensures
        entries_view(es.update(i, e)) == entries_view(es).insert(e.param@, entry_view(e)),
    decreases es.len(),
{
    let n = es.len();
    let upd = es.update(i, e);
    if i == n - 1 {
        assert(upd.drop_last() =~= es.drop_last());
        assert(entries_view(upd) =~= entries_view(es).insert(e.param@, entry_view(e)));
    } else {
        lemma_entries_update(es.drop_last(), i, e);
        assert(upd.drop_last() =~= es.drop_last().update(i, e));
        assert(es[i].param@ != es[n - 1].param@);
        assert(entries_view(upd) =~= entries_view(es).insert(e.param@, entry_view(e)));
    }
}

/// Law of the time lock: a change proposed at `now` with a delay cannot be
/// applied before `now + delay`, and needs approvals it does not have yet.
pub proof fn lemma_fresh_proposal_waits(m: Map<Seq<char>, EntryView>, name: Seq<char>, value: Seq<u8>, now: u64, delay: u64, t: u64, min_approvals: u32)
    requires
        now + delay <= u64::MAX,
        t < now + delay || min_approvals > 0,
    ensures
        ({
            let p = entry_of(proposed(m, name, value, now, delay), name).1->0;
            &&& entry_of(proposed(m, name, value, now, delay), name).1 is Some
            &&& (p.3 < min_approvals || t < p.2)
            &&& entry_of(proposed(m, name, value, now, delay), name).2.len() == 0
        }),
{
}

/// Law of approvals: no signer counts twice for one proposal, and the
/// count equals the number of distinct approvers when it started at zero.
pub proof fn lemma_approval_counts_signers(e: EntryView, signer: u64)
    requires
        e.1 is Some,
        approvals_of(e.1->0) == e.2.len(),
        !e.2.contains(signer),
        approvals_of(e.1->0) < u32::MAX,
    ensures
        ({
            let p = e.1->0;
            let after: EntryView = (e.0, Some((p.0, p.1, p.2, (p.3 + 1) as u32)), e.2.push(signer));
            &&& approvals_of(after.1->0) == after.2.len()
            &&& after.2.contains(signer)
        }),
{
    let p = e.1->0;
    let after: EntryView = (e.0, Some((p.0, p.1, p.2, (p.3 + 1) as u32)), e.2.push(signer));
    assert(after.2[e.2.len() as int] == signer);
}

} // verus!
