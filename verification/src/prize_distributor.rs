use vstd::prelude::*;
use crate::types::{Address, trunc_div};

verus! {

/// One week in seconds.
pub const WEEK_SECONDS: u64 = 604_800;

/// Maximum positions paid out in a single distribution call.
pub const MAX_PAYOUT_POSITIONS: u32 = 50;

/// Errors of the prize distributor.
#[derive(Clone, Copy, Debug, PartialEq, Eq, Structural)]
pub enum PrizeError {
    /// Prize pool has insufficient funds for the requested distribution.
    InsufficientPrizePool,
    /// Caller is not authorized to perform this action.
    NotAuthorized,
    /// Requested top-N is zero or exceeds the maximum payout positions.
    TooManyPositions,
    /// No leaderboard snapshot is available.
    NoSnapshot,
    /// Amount must be positive.
    InvalidAmount,
    /// Snapshot rank out of range.
    InvalidRank,
}

/// One payout of a weekly distribution.
#[derive(Clone, Copy, Debug, PartialEq, Eq, Structural)]
pub struct PrizeRecord {
    pub rank: u32,
    pub winner: Address,
    pub amount: i128,
    pub distributed_at: u64,
}

/// The prize distributor's state: operator, pool balance, time of the last
/// weekly reset, total paid out, the leaderboard slots (slot `r - 1` holds the
/// winner of rank `r`) and the size of the current snapshot.
pub struct PrizeStore {
    pub admin: Option<Address>,
    pub pool: i128,
    pub last_reset: u64,
    pub total_distributed: i128,
    pub snapshot: Vec<Address>,
    pub snapshot_size: u32,
}

impl PrizeStore {
    /// A distributor that was never initialised.
    pub fn new() -> (s: PrizeStore)
        ensures
            s.admin is None,
            s.pool == 0,
            s.last_reset == 0,
            s.total_distributed == 0,
            s.snapshot@ == Seq::<Address>::empty(),
            s.snapshot_size == 0,
    {
        PrizeStore {
            admin: None,
            pool: 0,
            last_reset: 0,
            total_distributed: 0,
            snapshot: Vec::new(),
            snapshot_size: 0,
        }
    }
}

/// Sum of the amounts of `records`.
pub open spec fn amounts_total(records: Seq<PrizeRecord>) -> int
    decreases records.len(),
{
    if records.len() == 0 {
        0
    } else {
        amounts_total(records.drop_last()) + records.last().amount
    }
}

/// Sum of the linear weights `top_n + 1 - r` over ranks `r = 1..=n`.
pub open spec fn weight_total(n: int) -> int {
    n * (n + 1) / 2
}

/// The share of rank `rank` (1-based) among `n` winners of `pool`:
/// `pool * (n + 1 - rank) / (n * (n + 1) / 2)`, rounded toward zero.
pub open spec fn share_of(pool: int, rank: int, n: int) -> int {
    trunc_div(pool * (n + 1 - rank), weight_total(n))
}

/// Total of the shares of ranks `1..=k` among `n` winners.
pub open spec fn shares_upto(pool: int, n: int, k: int) -> int
    decreases k,
{
    if k <= 0 {
        0
    } else {
        shares_upto(pool, n, k - 1) + share_of(pool, k, n)
    }
}

/// Sum of the weights of ranks `1..=k` among `n` winners.
pub open spec fn weights_upto(n: int, k: int) -> int
    decreases k,
{
    if k <= 0 {
        0
    } else {
        weights_upto(n, k - 1) + (n + 1 - k)
    }
}

/// The leaderboard slots after writing `winners` into ranks `1..=winners.len()`;
/// slots beyond keep their earlier winners.
pub open spec fn overwrite_prefix(slots: Seq<Address>, winners: Seq<Address>) -> Seq<Address> {
    Seq::new(
        if winners.len() > slots.len() { winners.len() } else { slots.len() },
        |i: int| if i < winners.len() { winners[i] } else { slots[i] },
    )
}

/// Number of positions a distribution of `top_n` pays.
pub open spec fn effective_positions(top_n: u32, size: u32) -> int {
    if top_n < size { top_n as int } else { size as int }
}

/// Whether a distribution by `caller` of `top_n` positions passes every check
/// before the payouts (authorised, 1..=50 positions, a snapshot, a pool of at
/// least one unit per position).
pub open spec fn distribution_admitted(s: PrizeStore, caller: Address, top_n: u32) -> bool {
    &&& s.admin == Some(caller)
    &&& 1 <= top_n <= MAX_PAYOUT_POSITIONS
    &&& s.snapshot_size > 0
    &&& s.pool >= effective_positions(top_n, s.snapshot_size)
}

/// Compute the prize share for rank `rank` out of `top_n`:
/// weight `top_n + 1 - rank` out of a total weight `top_n * (top_n + 1) / 2`.
pub fn prize_share(pool: i128, rank: u32, top_n: u32) -> (r: i128)
    requires
        1 <= top_n < u32::MAX,
        rank <= top_n + 1,
        i128::MIN <= pool * (top_n + 1 - rank) <= i128::MAX,
    ensures
        r == share_of(pool as int, rank as int, top_n as int),
{
    let weight = (top_n + 1 - rank) as i128;
    proof {
        assert(top_n * (top_n + 1) >= 2) by (nonlinear_arith)
            requires top_n >= 1;
        assert(top_n * (top_n + 1) <= 0x1_0000_0000 * 0x1_0000_0000) by (nonlinear_arith)
            requires top_n < 0x1_0000_0000;
    }
    let total_weight = (top_n as i128 * (top_n as i128 + 1)) / 2;
    pool * weight / total_weight
}

/// Initialize the prize distributor with an admin address.
pub fn initialize_prize_distributor(store: &mut PrizeStore, now: u64, admin: &Address)
    ensures
        final(store).admin == Some(*admin),
        final(store).pool == 0,
        final(store).last_reset == now,
        final(store).total_distributed == 0,
        final(store).snapshot_size == 0,
        final(store).snapshot@ == old(store).snapshot@,
{
    store.admin = Some(*admin);
    store.pool = 0;
    store.last_reset = now;
    store.total_distributed = 0;
    store.snapshot_size = 0;
}

/// Add `amount` to the weekly prize pool. Anyone may fund the pool.
pub fn fund_prize_pool(store: &mut PrizeStore, funder: &Address, amount: i128) -> (r: Result<i128, PrizeError>)
    requires
        amount > 0 ==> old(store).pool + amount <= i128::MAX,
    ensures
        amount <= 0 ==> r == Err::<i128, PrizeError>(PrizeError::InvalidAmount) && *final(store) == *old(store),
        amount > 0 ==> r == Ok::<i128, PrizeError>((old(store).pool + amount) as i128)
            && final(store).pool == old(store).pool + amount
            && final(store).admin == old(store).admin
            && final(store).last_reset == old(store).last_reset
            && final(store).total_distributed == old(store).total_distributed
            && final(store).snapshot@ == old(store).snapshot@
            && final(store).snapshot_size == old(store).snapshot_size,
{
    if amount <= 0 {
        return Err(PrizeError::InvalidAmount);
    }
    let new_total = store.pool + amount;
    store.pool = new_total;
    Ok(new_total)
}

/// Record a leaderboard snapshot (admin-only). `winners` is ordered from
/// rank 1 to rank N and replaces the current snapshot.
pub fn submit_leaderboard_snapshot(store: &mut PrizeStore, admin: &Address, winners: &Vec<Address>) -> (r: Result<u32, PrizeError>)
    requires
        winners@.len() <= u32::MAX,
    ensures
        old(store).admin != Some(*admin) ==> r == Err::<u32, PrizeError>(PrizeError::NotAuthorized)
            && *final(store) == *old(store),
        old(store).admin == Some(*admin) ==> r == Ok::<u32, PrizeError>(winners@.len() as u32)
            && final(store).snapshot@ == overwrite_prefix(old(store).snapshot@, winners@)
            && final(store).snapshot_size == winners@.len()
            && final(store).admin == old(store).admin
            && final(store).pool == old(store).pool
            && final(store).last_reset == old(store).last_reset
            && final(store).total_distributed == old(store).total_distributed,
{
    match store.admin {
        Some(a) => {
            if a != *admin {
                return Err(PrizeError::NotAuthorized);
            }
        },
        None => return Err(PrizeError::NotAuthorized),
    }
    let size = winners.len();
    let mut i: usize = 0;
    while i < size
        invariant
            size == winners@.len(),
            0 <= i <= size,
            store.snapshot@.len() == (if i > old(store).snapshot@.len() { i as int } else { old(store).snapshot@.len() as int }),
            forall|k: int| 0 <= k < store.snapshot@.len() ==> #[trigger] store.snapshot@[k]
                == (if k < i { winners@[k] } else { old(store).snapshot@[k] }),
            store.admin == old(store).admin,
            store.pool == old(store).pool,
            store.last_reset == old(store).last_reset,
            store.total_distributed == old(store).total_distributed,
            store.snapshot_size == old(store).snapshot_size,
        decreases size - i,
    {
        if i < store.snapshot.len() {
            store.snapshot.set(i, winners[i]);
        } else {
            store.snapshot.push(winners[i]);
        }
        i += 1;
    }
    store.snapshot_size = size as u32;
    proof {
        assert(store.snapshot@ =~= overwrite_prefix(old(store).snapshot@, winners@));
    }
    Ok(size as u32)
}

/// Distribute weekly prizes to the top `top_n` leaderboard positions: the
/// pool is split by descending linear weights among the first
/// `min(top_n, snapshot size)` ranks; the pool keeps the rounding remainder,
/// the snapshot is cleared and the reset time recorded.
pub fn distribute_weekly_prizes(store: &mut PrizeStore, now: u64, caller: &Address, top_n: u32) -> (r: Result<Vec<PrizeRecord>, PrizeError>)
    requires
        distribution_admitted(*old(store), *caller, top_n) ==> {
            let n = effective_positions(top_n, old(store).snapshot_size);
            &&& old(store).pool * n <= i128::MAX
            &&& old(store).total_distributed + shares_upto(old(store).pool as int, n, n) <= i128::MAX
        },
    ensures
        old(store).admin != Some(*caller) ==> r == Err::<Vec<PrizeRecord>, PrizeError>(PrizeError::NotAuthorized),
        old(store).admin == Some(*caller) && (top_n == 0 || top_n > MAX_PAYOUT_POSITIONS)
            ==> r == Err::<Vec<PrizeRecord>, PrizeError>(PrizeError::TooManyPositions),
        old(store).admin == Some(*caller) && 1 <= top_n <= MAX_PAYOUT_POSITIONS && old(store).snapshot_size == 0
            ==> r == Err::<Vec<PrizeRecord>, PrizeError>(PrizeError::NoSnapshot),
        old(store).admin == Some(*caller) && 1 <= top_n <= MAX_PAYOUT_POSITIONS && old(store).snapshot_size > 0
            && old(store).pool < effective_positions(top_n, old(store).snapshot_size)
            ==> r == Err::<Vec<PrizeRecord>, PrizeError>(PrizeError::InsufficientPrizePool),
        distribution_admitted(*old(store), *caller, top_n)
            && effective_positions(top_n, old(store).snapshot_size) > old(store).snapshot@.len()
            ==> r == Err::<Vec<PrizeRecord>, PrizeError>(PrizeError::InvalidRank),
        r is Err ==> *final(store) == *old(store),
        distribution_admitted(*old(store), *caller, top_n)
            && effective_positions(top_n, old(store).snapshot_size) <= old(store).snapshot@.len() ==> {
            let n = effective_positions(top_n, old(store).snapshot_size);
            let pool = old(store).pool as int;
            &&& r is Ok
            &&& r->Ok_0@.len() == n
            &&& forall|i: int| 0 <= i < n ==> #[trigger] r->Ok_0@[i] == (PrizeRecord {
                rank: (i + 1) as u32,
                winner: old(store).snapshot@[i],
                amount: share_of(pool, i + 1, n) as i128,
                distributed_at: now,
            })
            &&& amounts_total(r->Ok_0@) == shares_upto(pool, n, n)
            &&& 0 <= pool - amounts_total(r->Ok_0@) < n
            &&& final(store).pool == pool - amounts_total(r->Ok_0@)
            &&& final(store).total_distributed == old(store).total_distributed + amounts_total(r->Ok_0@)
            &&& final(store).last_reset == now
            &&& final(store).snapshot_size == 0
            &&& final(store).admin == old(store).admin
            &&& final(store).snapshot@ == old(store).snapshot@
        },
{
    match store.admin {
        Some(a) => {
            if a != *caller {
                return Err(PrizeError::NotAuthorized);
            }
        },
        None => return Err(PrizeError::NotAuthorized),
    }
    if top_n == 0 || top_n > MAX_PAYOUT_POSITIONS {
        return Err(PrizeError::TooManyPositions);
    }
    let snapshot_size = store.snapshot_size;
    if snapshot_size == 0 {
        return Err(PrizeError::NoSnapshot);
    }
    let effective_n = if top_n < snapshot_size { top_n } else { snapshot_size };
    let pool = store.pool;
    if pool < effective_n as i128 {
        return Err(PrizeError::InsufficientPrizePool);
    }
    let ghost n = effective_n as int;
    proof {
        lemma_shares_bounds(pool as int, n, n);
        lemma_weights_total(n);
    }

    let mut records: Vec<PrizeRecord> = Vec::new();
    let mut total_paid: i128 = 0;
    let mut rank: u32 = 1;
    while rank <= effective_n
        invariant
            1 <= effective_n <= MAX_PAYOUT_POSITIONS,
            n == effective_n,
            1 <= rank <= effective_n + 1,
            pool >= effective_n,
            pool * n <= i128::MAX,
            records@.len() == rank - 1,
            total_paid == shares_upto(pool as int, n, rank - 1),
            total_paid == amounts_total(records@),
            forall|i: int| 0 <= i < records@.len() ==> #[trigger] records@[i] == (PrizeRecord {
                rank: (i + 1) as u32,
                winner: store.snapshot@[i],
                amount: share_of(pool as int, i + 1, n) as i128,
                distributed_at: now,
            }),
            *store == *old(store),
            distribution_admitted(*old(store), *caller, top_n),
            n == effective_positions(top_n, old(store).snapshot_size),
            rank - 1 <= store.snapshot@.len(),
        decreases effective_n + 1 - rank,
    {
        if rank as usize > store.snapshot.len() {
            return Err(PrizeError::InvalidRank);
        }
        let winner = store.snapshot[rank as usize - 1];
        proof {
            lemma_shares_bounds(pool as int, n, rank as int);
            lemma_shares_within_pool(pool as int, n, rank as int);
            assert(pool * (n + 1 - rank) <= pool * n) by (nonlinear_arith)
                requires pool >= 0, rank >= 1;
            assert(pool * (n + 1 - rank) >= 0) by (nonlinear_arith)
                requires pool >= 0, rank <= n + 1;
        }
        let amount = prize_share(pool, rank, effective_n);
        total_paid = total_paid + amount;
        let ghost before = records@;
        records.push(PrizeRecord { rank, winner, amount, distributed_at: now });
        proof {
            assert(records@.drop_last() =~= before);
        }
        rank += 1;
    }
    proof {
        lemma_distribution_conserves_pool(pool as int, n);
    }

    let remaining = pool - total_paid;
    store.pool = remaining;
    let prev_total = store.total_distributed;
    store.total_distributed = prev_total + total_paid;
    store.last_reset = now;
    store.snapshot_size = 0;
    Ok(records)
}

/// Return the current prize pool balance.
pub fn get_prize_pool(store: &PrizeStore) -> (r: i128)
    ensures
        r == store.pool,
{
    store.pool
}

/// Return the cumulative total distributed since initialisation.
pub fn get_total_distributed(store: &PrizeStore) -> (r: i128)
    ensures
        r == store.total_distributed,
{
    store.total_distributed
}

/// Return the timestamp of the last weekly reset.
pub fn get_last_reset(store: &PrizeStore) -> (r: u64)
    ensures
        r == store.last_reset,
{
    store.last_reset
}

/// Twice the weights of ranks `1..=k` is `k * (2n + 1 - k)`; over all `n`
/// ranks they sum to `n * (n + 1) / 2`.
proof fn lemma_weights_total(n: int)
    requires
        n >= 1,
    ensures
        weights_upto(n, n) == weight_total(n),
        weight_total(n) >= 1,
{
    lemma_weights_upto(n, n);
    assert(n * (n + 1) >= 2) by (nonlinear_arith) requires n >= 1;
    assert(2 * weights_upto(n, n) == n * (n + 1));
}

proof fn lemma_weights_upto(n: int, k: int)
    requires
        0 <= k,
    ensures
        2 * weights_upto(n, k) == k * (2 * n + 1 - k),
    decreases k,
{
    if k > 0 {
        lemma_weights_upto(n, k - 1);
        assert(2 * weights_upto(n, k - 1) == (k - 1) * (2 * n + 1 - (k - 1)));
        assert((k - 1) * (2 * n + 1 - (k - 1)) + 2 * (n + 1 - k) == k * (2 * n + 1 - k)) by (nonlinear_arith);
        assert(weights_upto(n, k) == weights_upto(n, k - 1) + (n + 1 - k));
    } else {
        assert(k * (2 * n + 1 - k) == 0) by (nonlinear_arith) requires k == 0;
    }
}

/// Each share is the exact weighted part of the pool rounded down, so the
/// first `k` shares lie within `k` units below the exact weighted total.
proof fn lemma_shares_bounds(pool: int, n: int, k: int)
    requires
        pool >= 0,
        n >= 1,
        0 <= k <= n,
    ensures
        weight_total(n) * shares_upto(pool, n, k) <= pool * weights_upto(n, k),
        weight_total(n) * shares_upto(pool, n, k) > pool * weights_upto(n, k) - k * weight_total(n)
            || k == 0,
        shares_upto(pool, n, k) >= 0,
    decreases k,
{
    let w = weight_total(n);
    assert(n * (n + 1) >= 2) by (nonlinear_arith) requires n >= 1;
    assert(w >= 1);
    if k > 0 {
        lemma_shares_bounds(pool, n, k - 1);
        let a = pool * (n + 1 - k);
        assert(pool * (n + 1 - k) >= 0) by (nonlinear_arith) requires pool >= 0, k <= n;
        let q = a / w;
        assert(share_of(pool, k, n) == q);
        vstd::arithmetic::div_mod::lemma_fundamental_div_mod(a, w);
        assert(0 <= a % w < w) by {
            vstd::arithmetic::div_mod::lemma_mod_bound(a, w);
        }
        assert(q >= 0) by {
            vstd::arithmetic::div_mod::lemma_div_pos_is_pos(a, w);
        }
        let s0 = shares_upto(pool, n, k - 1);
        let wk0 = weights_upto(n, k - 1);
        assert(w * (s0 + q) == w * s0 + w * q) by (nonlinear_arith);
        assert(pool * (wk0 + (n + 1 - k)) == pool * wk0 + pool * (n + 1 - k)) by (nonlinear_arith);
        assert(k * w == (k - 1) * w + w) by (nonlinear_arith);
    }
}

/// The first `k` shares never add up to more than the pool.
proof fn lemma_shares_within_pool(pool: int, n: int, k: int)
    requires
        pool >= 0,
        n >= 1,
        0 <= k <= n,
    ensures
        0 <= shares_upto(pool, n, k) <= pool,
{
    lemma_shares_bounds(pool, n, k);
    lemma_weights_upto(n, k);
    lemma_weights_total(n);
    let w = weight_total(n);
    let wk = weights_upto(n, k);
    let s = shares_upto(pool, n, k);
    assert(k * (2 * n + 1 - k) <= n * (n + 1)) by (nonlinear_arith) requires 0 <= k <= n;
    assert(2 * w == n * (n + 1)) by {
        lemma_weights_upto(n, n);
    }
    assert(wk <= w);
    assert(pool * wk <= pool * w) by (nonlinear_arith) requires pool >= 0, wk <= w;
    assert(s <= pool) by (nonlinear_arith) requires w * s <= pool * w, w >= 1;
}

/// Law of a weekly distribution: whatever the pool, the shares of `n`
/// winners never exceed it and leave less than one unit per winner behind.
pub proof fn lemma_distribution_conserves_pool(pool: int, n: int)
    requires
        1 <= n,
        0 <= pool,
    ensures
        shares_upto(pool, n, n) <= pool,
        shares_upto(pool, n, n) > pool - n,
        shares_upto(pool, n, n) >= 0,
{
    lemma_shares_bounds(pool, n, n);
    lemma_weights_total(n);
    let w = weight_total(n);
    let s = shares_upto(pool, n, n);
    assert(w * s <= pool * w);
    assert(s <= pool) by (nonlinear_arith) requires w * s <= pool * w, w >= 1;
    assert(w * s > pool * w - n * w);
    assert(s > pool - n) by (nonlinear_arith) requires w * s > pool * w - n * w, w >= 1;
}

/// Law of a weekly distribution: a better rank never receives less than a
/// worse one.
pub proof fn lemma_shares_descend(pool: int, rank: int, n: int)
    requires
        pool >= 0,
        1 <= rank < n,
    ensures
        share_of(pool, rank, n) >= share_of(pool, rank + 1, n),
        share_of(pool, rank + 1, n) >= 0,
{
    let w = weight_total(n);
    assert(n * (n + 1) >= 2) by (nonlinear_arith) requires n >= 1;
    assert(pool * (n + 1 - rank) >= pool * (n + 1 - (rank + 1))) by (nonlinear_arith)
        requires pool >= 0;
    assert(pool * (n + 1 - (rank + 1)) >= 0) by (nonlinear_arith) requires pool >= 0, rank < n;
    vstd::arithmetic::div_mod::lemma_div_is_ordered(pool * (n + 1 - (rank + 1)), pool * (n + 1 - rank), w);
    vstd::arithmetic::div_mod::lemma_div_pos_is_pos(pool * (n + 1 - (rank + 1)), w);
}

} // verus!
