use vstd::prelude::*;
use crate::types::{Address, u64_byte, u64_byte_at};

verus! {

/// One entry of the audit log.
#[derive(Debug)]
pub struct AuditEntry {
    pub id: u64,
    pub timestamp: u64,
    pub actor: Option<Address>,
    pub action: String,
    pub details: [u8; 128],
}

impl Clone for AuditEntry {
    fn clone(&self) -> (r: AuditEntry)
        ensures
            r == *self,
    {
        AuditEntry {
            id: self.id,
            timestamp: self.timestamp,
            actor: self.actor,
            action: self.action.clone(),
            details: self.details,
        }
    }
}

/// Errors of the audit log.
#[derive(Clone, Copy, Debug, PartialEq, Eq, Structural)]
pub enum AuditLoggerError {
    LogWriteFailed,
    QueryLimitExceeded,
    InvalidFilter,
}

/// The audit log; the entry with id `i` is at position `i`.
pub struct AuditLog {
    entries: Vec<AuditEntry>,
}

/// Detail bytes carrying two numbers: `a` big-endian in bytes 0..8, `b` in
/// bytes 8..16, zeros after.
pub open spec fn details_of(a: u64, b: u64) -> Seq<u8> {
    Seq::new(128, |k: int| if k < 8 { u64_byte(a, k) } else if k < 16 { u64_byte(b, k - 8) } else { 0u8 })
}

/// The entries among the first `k` whose action is `filter`, in order.
pub open spec fn matching(entries: Seq<AuditEntry>, filter: Seq<char>, k: int) -> Seq<AuditEntry>
    decreases k,
{
    if k <= 0 {
        Seq::empty()
    } else {
        let prev = matching(entries, filter, k - 1);
        if entries[k - 1].action@ == filter {
            prev.push(entries[k - 1])
        } else {
            prev
        }
    }
}

/// Number of entries a query with `limit` searches (all when `limit` is 0).
pub open spec fn query_span(total: int, limit: u32) -> int {
    if limit == 0 || total < limit {
        total
    } else {
        limit as int
    }
}

impl AuditLog {
    #[verifier::type_invariant]
    spec fn wf(&self) -> bool {
        forall|i: int| 0 <= i < self.entries@.len() ==> #[trigger] self.entries@[i].id == i
    }

    /// The entries, oldest first.
    pub closed spec fn entries(&self) -> Seq<AuditEntry> {
        self.entries@
    }

    /// An empty log.
    pub fn new() -> (s: AuditLog)
        ensures
            s.entries() == Seq::<AuditEntry>::empty(),
    {
        AuditLog { entries: Vec::new() }
    }
}

/// Append an entry for `action` by `actor` at `now`; entries are numbered
/// from zero.
pub fn log_audit_event(log: &mut AuditLog, actor: Option<Address>, action: &String, details: &[u8; 128], now: u64) -> (r: Result<AuditEntry, AuditLoggerError>)
    ensures
        ({
            let id = old(log).entries().len();
            &&& r is Ok
            &&& r->Ok_0.id == id
            &&& r->Ok_0.timestamp == now
            &&& r->Ok_0.actor == actor
            &&& r->Ok_0.action@ == action@
            &&& r->Ok_0.details == *details
            &&& final(log).entries() == old(log).entries().push(r->Ok_0)
        }),
{
    proof { use_type_invariant(&*log); }
    let id = log.entries.len() as u64;
    let entry = AuditEntry { id, timestamp: now, actor, action: action.clone(), details: *details };
    let mut entries: Vec<AuditEntry> = Vec::new();
    std::mem::swap(&mut entries, &mut log.entries);
    entries.push(entry.clone());
    log.entries = entries;
    Ok(entry)
}

/// The entries with action `filter` among the first `limit` (all entries
/// when `limit` is 0), oldest first.
pub fn query_audit_logs(log: &AuditLog, filter: &String, limit: u32) -> (r: Vec<AuditEntry>)
    ensures
        r@ == matching(log.entries(), filter@, query_span(log.entries().len() as int, limit)),
{
    let total = log.entries.len();
    let max: usize = if limit == 0 || total < limit as usize { total } else { limit as usize };
    let mut results: Vec<AuditEntry> = Vec::new();
    let mut i: usize = 0;
    while i < max
        invariant
            0 <= i <= max,
            max <= log.entries@.len(),
            max == query_span(log.entries@.len() as int, limit),
            results@ == matching(log.entries@, filter@, i as int),
        decreases max - i,
    {
        if log.entries[i].action == *filter {
            results.push(log.entries[i].clone());
        }
        i += 1;
    }
    results
}

/// Detail bytes of an audited operation: `a` and `b` big-endian in the first
/// sixteen bytes (pass zero for an unused number), zeros after.
pub fn audit_details(a: u64, b: u64) -> (d: [u8; 128])
    ensures
        d@ == details_of(a, b),
{
    let mut d: [u8; 128] = [0u8; 128];
    let mut k: usize = 0;
    while k < 8
        invariant
            0 <= k <= 8,
            forall|j: int| 0 <= j < 128 ==> #[trigger] d@[j] == (if j < k {
                u64_byte(a, j)
            } else if 8 <= j < 8 + k {
                u64_byte(b, j - 8)
            } else {
                0u8
            }),
        decreases 8 - k,
    {
        d[k] = u64_byte_at(a, k);
        d[k + 8] = u64_byte_at(b, k);
        k += 1;
    }
    proof {
        assert(d@ =~= details_of(a, b));
    }
    d
}

/// Number of entries logged.
pub fn get_audit_count(log: &AuditLog) -> (r: u64)
    ensures
        r == log.entries().len(),
{
    log.entries.len() as u64
}

/// Law of the audit log: a query never returns more entries than it
/// searched, and every entry it returns has the requested action.
pub proof fn lemma_query_sound(entries: Seq<AuditEntry>, filter: Seq<char>, k: int)
    requires
        0 <= k <= entries.len(),
    ensures
        matching(entries, filter, k).len() <= k,
        forall|i: int| 0 <= i < matching(entries, filter, k).len() ==> (#[trigger] matching(entries, filter, k)[i]).action@ == filter,
    decreases k,
{
    if k > 0 {
        lemma_query_sound(entries, filter, k - 1);
        let prev = matching(entries, filter, k - 1);
        if entries[k - 1].action@ == filter {
            assert forall|i: int| 0 <= i < prev.push(entries[k - 1]).len() implies (#[trigger] prev.push(entries[k - 1])[i]).action@ == filter by {
                if i < prev.len() {
                    assert(prev.push(entries[k - 1])[i] == prev[i]);
                }
            }
        }
    }
}

/// When every entry has the requested action, the matches among the first
/// `k` entries are exactly those entries.
proof fn lemma_all_match(entries: Seq<AuditEntry>, filter: Seq<char>, k: int)
    requires
        0 <= k <= entries.len(),
        forall|i: int| 0 <= i < entries.len() ==> (#[trigger] entries[i]).action@ == filter,
    ensures
        matching(entries, filter, k) == entries.take(k),
    decreases k,
{
    if k > 0 {
        lemma_all_match(entries, filter, k - 1);
        assert(entries.take(k) =~= entries.take(k - 1).push(entries[k - 1]));
    } else {
        assert(entries.take(0) =~= Seq::<AuditEntry>::empty());
    }
}

/// Law of the audit query: with a limit, a query searches exactly the oldest
/// `min(total, limit)` entries, and without one (limit 0) all of them. So on a
/// log whose entries all have the requested action it returns exactly that
/// many entries, oldest first.
pub proof fn lemma_query_takes_limit(entries: Seq<AuditEntry>, filter: Seq<char>, limit: u32)
    requires
        forall|i: int| 0 <= i < entries.len() ==> (#[trigger] entries[i]).action@ == filter,
    ensures
        limit == 0 ==> matching(entries, filter, query_span(entries.len() as int, limit)) == entries,
        limit > 0 ==> matching(entries, filter, query_span(entries.len() as int, limit))
            == entries.take(if entries.len() < limit { entries.len() as int } else { limit as int }),
        limit > 0 ==> matching(entries, filter, query_span(entries.len() as int, limit)).len()
            == if entries.len() < limit { entries.len() as int } else { limit as int },
{
    let total = entries.len() as int;
    let m = if limit > 0 && total >= limit { limit as int } else { total };
    lemma_all_match(entries, filter, m);
    assert(entries.take(total) =~= entries);
}

} // verus!
