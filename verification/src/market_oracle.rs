use vstd::prelude::*;
use crate::types::{Address, copy_vec};

verus! {

/// Age (in seconds) after which a price is stale: 24 hours.
pub const MAX_PRICE_AGE_SECS: u64 = 86_400;
/// Most prices updated in one batch.
pub const MAX_BATCH_UPDATE: u32 = 20;
/// Fewest oracle sources the oracle starts with.
pub const MIN_ORACLE_SOURCES: u32 = 1;
/// Most history entries kept per resource (one a hour for a day).
pub const PRICE_HISTORY_LEN: usize = 24;

/// Errors of the market oracle.
#[derive(Clone, Copy, Debug, PartialEq, Eq, Structural)]
pub enum OracleError {
    Unauthorized,
    StalePrice,
    InvalidPrice,
    ResourceNotFound,
    TooManyUpdates,
    NoOracleSources,
}

/// A price of a resource at a time.
#[derive(Debug)]
pub struct PriceData {
    pub resource: String,
    pub price: i128,
    pub timestamp: u64,
    pub source_count: u32,
}

impl Clone for PriceData {
    fn clone(&self) -> (r: PriceData)
        ensures
            r == *self,
    {
        PriceData {
            resource: self.resource.clone(),
            price: self.price,
            timestamp: self.timestamp,
            source_count: self.source_count,
        }
    }
}

/// The latest price of one resource and its recent history, oldest first.
#[derive(Debug)]
pub struct PriceFeed {
    pub latest: PriceData,
    pub history: Vec<PriceData>,
}

/// The oracle's operator, its sources and one feed per priced resource.
pub struct MarketOracle {
    pub admin: Option<Address>,
    pub sources: Vec<Address>,
    pub feeds: Vec<PriceFeed>,
}

/// A price without its resource name: price, timestamp, source count.
pub type PriceView = (i128, u64, u32);

/// The plain values of a price.
pub open spec fn pview(p: PriceData) -> PriceView {
    (p.price, p.timestamp, p.source_count)
}

/// The plain values of a history.
pub open spec fn hist_view(h: Seq<PriceData>) -> Seq<PriceView> {
    h.map_values(|p: PriceData| pview(p))
}

/// Every resource priced, with its latest price and history.
pub open spec fn feeds_view(feeds: Seq<PriceFeed>) -> Map<Seq<char>, (PriceView, Seq<PriceView>)>
    decreases feeds.len(),
{
    if feeds.len() == 0 {
        Map::empty()
    } else {
        feeds_view(feeds.drop_last()).insert(
            feeds.last().latest.resource@,
            (pview(feeds.last().latest), hist_view(feeds.last().history@)),
        )
    }
}

/// A history after one more price: the oldest leaves once more than 24 are held.
pub open spec fn push_capped(h: Seq<PriceView>, p: PriceView) -> Seq<PriceView> {
    let h2 = h.push(p);
    if h2.len() > PRICE_HISTORY_LEN {
        h2.drop_first()
    } else {
        h2
    }
}

/// The oracle's prices after `name` is priced at `price` at `now` (by one source).
pub open spec fn priced(v: Map<Seq<char>, (PriceView, Seq<PriceView>)>, name: Seq<char>, price: i128, now: u64) -> Map<Seq<char>, (PriceView, Seq<PriceView>)> {
    let old_hist = if v.contains_key(name) {
        v[name].1
    } else {
        Seq::empty()
    };
    v.insert(name, ((price, now, 1u32), push_capped(old_hist, (price, now, 1u32))))
}

/// The oracle's prices after the first `k` updates of a batch.
pub open spec fn priced_batch(
    v: Map<Seq<char>, (PriceView, Seq<PriceView>)>,
    names: Seq<String>,
    prices: Seq<i128>,
    now: u64,
    k: int,
) -> Map<Seq<char>, (PriceView, Seq<PriceView>)>
    decreases k,
{
    if k <= 0 {
        v
    } else {
        priced(priced_batch(v, names, prices, now, k - 1), names[k - 1]@, prices[k - 1], now)
    }
}

impl MarketOracle {
    /// Well-formedness: one feed per resource, each history holds prices of
    /// its own resource and at most 24 of them.
    pub open spec fn wf(&self) -> bool {
        &&& forall|i: int, j: int| 0 <= i < j < self.feeds@.len()
            ==> (#[trigger] self.feeds@[i]).latest.resource@ != (#[trigger] self.feeds@[j]).latest.resource@
        &&& forall|i: int| 0 <= i < self.feeds@.len() ==> (#[trigger] self.feeds@[i]).history@.len() <= PRICE_HISTORY_LEN
        &&& forall|i: int, k: int| 0 <= i < self.feeds@.len() && 0 <= k < self.feeds@[i].history@.len()
            ==> (#[trigger] self.feeds@[i].history@[k]).resource@ == self.feeds@[i].latest.resource@
    }

    /// The resources priced, with their latest price and history.
    pub open spec fn prices(&self) -> Map<Seq<char>, (PriceView, Seq<PriceView>)> {
        feeds_view(self.feeds@)
    }

    /// An oracle that was never initialised.
    pub fn new() -> (s: MarketOracle)
        ensures
            s.wf(),
            s.admin is None,
            s.sources@ == Seq::<Address>::empty(),
            s.prices() == Map::<Seq<char>, (PriceView, Seq<PriceView>)>::empty(),
    {
        MarketOracle { admin: None, sources: Vec::new(), feeds: Vec::new() }
    }
}

/// Initialise the oracle with its operator and at least one source.
pub fn initialize_oracle(oracle: &mut MarketOracle, admin: Address, sources: Vec<Address>) -> (r: Result<(), OracleError>)
    requires
        old(oracle).wf(),
    ensures
        final(oracle).wf(),
        sources@.len() == 0 ==> r == Err::<(), OracleError>(OracleError::NoOracleSources)
            && final(oracle).admin == old(oracle).admin
            && final(oracle).sources@ == old(oracle).sources@,
        sources@.len() > 0 ==> r == Ok::<(), OracleError>(())
            && final(oracle).admin == Some(admin)
            && final(oracle).sources@ == sources@,
        final(oracle).feeds@ == old(oracle).feeds@,
{
    if sources.len() == 0 {
        return Err(OracleError::NoOracleSources);
    }
    oracle.admin = Some(admin);
    oracle.sources = sources;
    Ok(())
}

/// Position of the feed of `name`, if any.
fn find_feed(feeds: &Vec<PriceFeed>, name: &String) -> (r: Option<usize>)
    ensures
        r is Some ==> r->0 < feeds@.len() && feeds@[r->0 as int].latest.resource@ == name@,
        r is None ==> forall|i: int| 0 <= i < feeds@.len() ==> #[trigger] feeds@[i].latest.resource@ != name@,
{
    let mut i: usize = 0;
    while i < feeds.len()
        invariant
            0 <= i <= feeds@.len(),
            forall|k: int| 0 <= k < i ==> #[trigger] feeds@[k].latest.resource@ != name@,
        decreases feeds@.len() - i,
    {
        if feeds[i].latest.resource == *name {
            return Some(i);
        }
        i += 1;
    }
    None
}

/// Record a price in the feeds (the caller checked authority and price).
fn record_price(oracle: &mut MarketOracle, resource: &String, new_price: i128, now: u64) -> (r: PriceData)
    requires
        old(oracle).wf(),
    ensures
        final(oracle).wf(),
        r.resource@ == resource@,
        pview(r) == (new_price, now, 1u32),
        final(oracle).prices() == priced(old(oracle).prices(), resource@, new_price, now),
        final(oracle).admin == old(oracle).admin,
        final(oracle).sources@ == old(oracle).sources@,
{
    let price_data = PriceData { resource: resource.clone(), price: new_price, timestamp: now, source_count: 1 };
    let ghost before = oracle.feeds@;
    proof { lemma_view_keys(before); }
    match find_feed(&oracle.feeds, resource) {
        Some(i) => {
            let ghost old_hist = before[i as int].history@;
            oracle.feeds[i].latest = price_data.clone();
            oracle.feeds[i].history.push(price_data.clone());
            if oracle.feeds[i].history.len() > PRICE_HISTORY_LEN {
                oracle.feeds[i].history.remove(0);
            }
            proof {
                let f = oracle.feeds@[i as int];
                assert(hist_view(f.history@) =~= push_capped(hist_view(old_hist), pview(price_data)));
                assert(oracle.feeds@ == before.update(i as int, f));
                lemma_view_update(before, i as int, f);
                assert forall|a: int, b: int| 0 <= a < b < oracle.feeds@.len() implies
                    (#[trigger] oracle.feeds@[a]).latest.resource@ != (#[trigger] oracle.feeds@[b]).latest.resource@ by {
                    assert(before[a].latest.resource@ != before[b].latest.resource@);
                }
            }
        },
        None => {
            let mut history: Vec<PriceData> = Vec::new();
            history.push(price_data.clone());
            oracle.feeds.push(PriceFeed { latest: price_data.clone(), history });
            proof {
                let f = oracle.feeds@[before.len() as int];
                assert(oracle.feeds@.drop_last() =~= before);
                assert(hist_view(f.history@) =~= push_capped(Seq::<PriceView>::empty(), pview(price_data)));
            }
        },
    }
    price_data
}

/// Update the price of a resource (operator only; prices are never negative).
pub fn update_resource_price(oracle: &mut MarketOracle, admin: Address, resource: &String, new_price: i128, now: u64) -> (r: Result<PriceData, OracleError>)
    requires
        old(oracle).wf(),
    ensures
        final(oracle).wf(),
        old(oracle).admin != Some(admin) ==> r == Err::<PriceData, OracleError>(OracleError::Unauthorized),
        old(oracle).admin == Some(admin) && new_price < 0 ==> r == Err::<PriceData, OracleError>(OracleError::InvalidPrice),
        r is Err ==> final(oracle).prices() == old(oracle).prices(),
        old(oracle).admin == Some(admin) && new_price >= 0 ==> r is Ok
            && r->Ok_0.resource@ == resource@
            && pview(r->Ok_0) == (new_price, now, 1u32)
            && final(oracle).prices() == priced(old(oracle).prices(), resource@, new_price, now),
        final(oracle).admin == old(oracle).admin,
        final(oracle).sources@ == old(oracle).sources@,
{
    match oracle.admin {
        Some(a) => {
            if a != admin {
                return Err(OracleError::Unauthorized);
            }
        },
        None => return Err(OracleError::Unauthorized),
    }
    if new_price < 0 {
        return Err(OracleError::InvalidPrice);
    }
    Ok(record_price(oracle, resource, new_price, now))
}

/// Update several prices at once, in order; nothing changes when any of
/// them fails.
pub fn batch_update_prices(
    oracle: &mut MarketOracle,
    admin: Address,
    resources: &Vec<String>,
    prices: &Vec<i128>,
    now: u64,
) -> (r: Result<Vec<PriceData>, OracleError>)
    requires
        old(oracle).wf(),
    ensures
        final(oracle).wf(),
        resources@.len() != prices@.len() ==> r == Err::<Vec<PriceData>, OracleError>(OracleError::InvalidPrice),
        resources@.len() == prices@.len() && resources@.len() > MAX_BATCH_UPDATE
            ==> r == Err::<Vec<PriceData>, OracleError>(OracleError::TooManyUpdates),
        resources@.len() == prices@.len() && 0 < resources@.len() <= MAX_BATCH_UPDATE && old(oracle).admin != Some(admin)
            ==> r == Err::<Vec<PriceData>, OracleError>(OracleError::Unauthorized),
        resources@.len() == prices@.len() && resources@.len() <= MAX_BATCH_UPDATE
            && (resources@.len() == 0 || old(oracle).admin == Some(admin))
            && (exists|i: int| 0 <= i < prices@.len() && #[trigger] prices@[i] < 0)
            ==> r == Err::<Vec<PriceData>, OracleError>(OracleError::InvalidPrice),
        r is Err ==> final(oracle).prices() == old(oracle).prices(),
        resources@.len() == prices@.len() && resources@.len() <= MAX_BATCH_UPDATE
            && (resources@.len() == 0 || old(oracle).admin == Some(admin))
            && (forall|i: int| 0 <= i < prices@.len() ==> #[trigger] prices@[i] >= 0) ==> {
            &&& r is Ok
            &&& r->Ok_0@.len() == resources@.len()
            &&& forall|i: int| 0 <= i < resources@.len() ==> (#[trigger] r->Ok_0@[i]).resource@ == resources@[i]@
                && pview(r->Ok_0@[i]) == (prices@[i], now, 1u32)
            &&& final(oracle).prices() == priced_batch(old(oracle).prices(), resources@, prices@, now, resources@.len() as int)
        },
        final(oracle).admin == old(oracle).admin,
        final(oracle).sources@ == old(oracle).sources@,
{
    if resources.len() != prices.len() {
        return Err(OracleError::InvalidPrice);
    }
    if resources.len() > MAX_BATCH_UPDATE as usize {
        return Err(OracleError::TooManyUpdates);
    }
    if resources.len() > 0 {
        match oracle.admin {
            Some(a) => {
                if a != admin {
                    return Err(OracleError::Unauthorized);
                }
            },
            None => return Err(OracleError::Unauthorized),
        }
    }
    let mut k: usize = 0;
    while k < prices.len()
        invariant
            0 <= k <= prices@.len(),
            forall|i: int| 0 <= i < k ==> #[trigger] prices@[i] >= 0,
            resources@.len() == prices@.len(),
            resources@.len() <= MAX_BATCH_UPDATE,
            resources@.len() == 0 || old(oracle).admin == Some(admin),
            oracle.feeds@ == old(oracle).feeds@,
            oracle.admin == old(oracle).admin,
            oracle.sources@ == old(oracle).sources@,
            oracle.wf(),
        decreases prices@.len() - k,
    {
        if prices[k] < 0 {
            return Err(OracleError::InvalidPrice);
        }
        k += 1;
    }
    let ghost v0 = oracle.prices();
    let mut results: Vec<PriceData> = Vec::new();
    let mut i: usize = 0;
    while i < resources.len()
        invariant
            0 <= i <= resources@.len(),
            resources@.len() == prices@.len(),
            oracle.wf(),
            oracle.prices() == priced_batch(v0, resources@, prices@, now, i as int),
            oracle.admin == old(oracle).admin,
            oracle.sources@ == old(oracle).sources@,
            results@.len() == i,
            forall|j: int| 0 <= j < i ==> (#[trigger] results@[j]).resource@ == resources@[j]@
                && pview(results@[j]) == (prices@[j], now, 1u32),
        decreases resources@.len() - i,
    {
        let pd = record_price(oracle, &resources[i], prices[i], now);
        results.push(pd);
        i += 1;
    }
    Ok(results)
}

/// The current price of a resource, unless older than a day.
pub fn get_current_market_rate(oracle: &MarketOracle, resource: &String, now: u64) -> (r: Result<i128, OracleError>)
    requires
        oracle.wf(),
    ensures
        !oracle.prices().contains_key(resource@) ==> r == Err::<i128, OracleError>(OracleError::ResourceNotFound),
        oracle.prices().contains_key(resource@) ==> {
            let p = oracle.prices()[resource@].0;
            let age = if now > p.1 { now - p.1 } else { 0 };
            &&& age > MAX_PRICE_AGE_SECS ==> r == Err::<i128, OracleError>(OracleError::StalePrice)
            &&& age <= MAX_PRICE_AGE_SECS ==> r == Ok::<i128, OracleError>(p.0)
        },
{
    proof { lemma_view_keys(oracle.feeds@); }
    let i = match find_feed(&oracle.feeds, resource) {
        Some(i) => i,
        None => return Err(OracleError::ResourceNotFound),
    };
    let latest = &oracle.feeds[i].latest;
    let age = now.saturating_sub(latest.timestamp);
    if age > MAX_PRICE_AGE_SECS {
        return Err(OracleError::StalePrice);
    }
    Ok(latest.price)
}

/// The latest price data of a resource.
pub fn get_price_data(oracle: &MarketOracle, resource: &String) -> (r: Result<PriceData, OracleError>)
    requires
        oracle.wf(),
    ensures
        !oracle.prices().contains_key(resource@) ==> r == Err::<PriceData, OracleError>(OracleError::ResourceNotFound),
        oracle.prices().contains_key(resource@) ==> r is Ok && r->Ok_0.resource@ == resource@
            && pview(r->Ok_0) == oracle.prices()[resource@].0,
{
    proof { lemma_view_keys(oracle.feeds@); }
    match find_feed(&oracle.feeds, resource) {
        Some(i) => Ok(oracle.feeds[i].latest.clone()),
        None => Err(OracleError::ResourceNotFound),
    }
}

/// The price history of a resource, oldest first (empty when never priced).
pub fn get_price_history(oracle: &MarketOracle, resource: &String) -> (r: Vec<PriceData>)
    requires
        oracle.wf(),
    ensures
        !oracle.prices().contains_key(resource@) ==> r@.len() == 0,
        oracle.prices().contains_key(resource@) ==> hist_view(r@) == oracle.prices()[resource@].1,
        forall|k: int| 0 <= k < r@.len() ==> (#[trigger] r@[k]).resource@ == resource@,
{
    proof { lemma_view_keys(oracle.feeds@); }
    match find_feed(&oracle.feeds, resource) {
        Some(i) => {
            let h = &oracle.feeds[i].history;
            let mut out: Vec<PriceData> = Vec::new();
            let mut j: usize = 0;
            while j < h.len()
                invariant
                    0 <= j <= h@.len(),
                    out@ == h@.subrange(0, j as int),
                decreases h@.len() - j,
            {
                out.push(h[j].clone());
                j += 1;
                proof { assert(out@ =~= h@.subrange(0, j as int)); }
            }
            proof { assert(out@ =~= h@); }
            out
        },
        None => Vec::new(),
    }
}

/// Add an oracle source (operator only).
pub fn add_oracle_source(oracle: &mut MarketOracle, admin: Address, new_source: Address) -> (r: Result<(), OracleError>)
    requires
        old(oracle).wf(),
    ensures
        final(oracle).wf(),
        old(oracle).admin != Some(admin) ==> r == Err::<(), OracleError>(OracleError::Unauthorized)
            && final(oracle).sources@ == old(oracle).sources@,
        old(oracle).admin == Some(admin) ==> r == Ok::<(), OracleError>(())
            && final(oracle).sources@ == old(oracle).sources@.push(new_source),
        final(oracle).admin == old(oracle).admin,
        final(oracle).feeds@ == old(oracle).feeds@,
{
    match oracle.admin {
        Some(a) => {
            if a != admin {
                return Err(OracleError::Unauthorized);
            }
        },
        None => return Err(OracleError::Unauthorized),
    }
    oracle.sources.push(new_source);
    Ok(())
}

/// The resources of the view are the names of the feeds, each with the
/// values of its feed.
proof fn lemma_view_keys(feeds: Seq<PriceFeed>)
    requires
        forall|i: int, j: int| 0 <= i < j < feeds.len()
            ==> (#[trigger] feeds[i]).latest.resource@ != (#[trigger] feeds[j]).latest.resource@,
    ensures
        forall|n: Seq<char>| #[trigger] feeds_view(feeds).contains_key(n)
            <==> exists|i: int| 0 <= i < feeds.len() && feeds[i].latest.resource@ == n,
        forall|i: int| 0 <= i < feeds.len() ==> #[trigger] feeds_view(feeds)[feeds[i].latest.resource@]
            == (pview(feeds[i].latest), hist_view(feeds[i].history@)),
    decreases feeds.len(),
{
    if feeds.len() > 0 {
        let pre = feeds.drop_last();
        lemma_view_keys(pre);
        assert forall|n: Seq<char>| #[trigger] feeds_view(feeds).contains_key(n)
            <==> exists|i: int| 0 <= i < feeds.len() && feeds[i].latest.resource@ == n by {
            if feeds_view(pre).contains_key(n) {
                let i = choose|i: int| 0 <= i < pre.len() && pre[i].latest.resource@ == n;
                assert(feeds[i].latest.resource@ == n);
            }
            if exists|i: int| 0 <= i < feeds.len() && feeds[i].latest.resource@ == n {
                let i = choose|i: int| 0 <= i < feeds.len() && feeds[i].latest.resource@ == n;
                if i < feeds.len() - 1 {
                    assert(pre[i].latest.resource@ == n);
                }
            }
        }
        assert forall|i: int| 0 <= i < feeds.len() implies #[trigger] feeds_view(feeds)[feeds[i].latest.resource@]
            == (pview(feeds[i].latest), hist_view(feeds[i].history@)) by {
            if i < feeds.len() - 1 {
                assert(pre[i] == feeds[i]);
                assert(feeds[i].latest.resource@ != feeds[feeds.len() - 1].latest.resource@);
                assert(feeds_view(pre)[pre[i].latest.resource@] == (pview(pre[i].latest), hist_view(pre[i].history@)));
            }
        }
    }
}

/// Replacing a feed by one of the same resource changes only that resource.
proof fn lemma_view_update(feeds: Seq<PriceFeed>, i: int, f: PriceFeed)
    requires
        0 <= i < feeds.len(),
        f.latest.resource@ == feeds[i].latest.resource@,
        forall|a: int, b: int| 0 <= a < b < feeds.len()
            ==> (#[trigger] feeds[a]).latest.resource@ != (#[trigger] feeds[b]).latest.resource@,
    ensures
        feeds_view(feeds.update(i, f)) == feeds_view(feeds).insert(
            f.latest.resource@,
            (pview(f.latest), hist_view(f.history@)),
        ),
    decreases feeds.len(),
{
    let n = feeds.len();
    let upd = feeds.update(i, f);
    if i == n - 1 {
        assert(upd.drop_last() =~= feeds.drop_last());
        assert(feeds_view(upd) =~= feeds_view(feeds).insert(f.latest.resource@, (pview(f.latest), hist_view(f.history@))));
    } else {
        lemma_view_update(feeds.drop_last(), i, f);
        assert(upd.drop_last() =~= feeds.drop_last().update(i, f));
        assert(feeds[i].latest.resource@ != feeds[n - 1].latest.resource@);
        assert(feeds_view(upd) =~= feeds_view(feeds).insert(f.latest.resource@, (pview(f.latest), hist_view(f.history@))));
    }
}

/// Law of prices: after an update, the resource's latest price is the new
/// one, and it is the last of its history, which holds at most 24 prices.
pub proof fn lemma_update_then_read(v: Map<Seq<char>, (PriceView, Seq<PriceView>)>, name: Seq<char>, price: i128, now: u64)
    requires
        v.contains_key(name) ==> v[name].1.len() <= PRICE_HISTORY_LEN,
    ensures
        priced(v, name, price, now).contains_key(name),
        priced(v, name, price, now)[name].0 == (price, now, 1u32),
        priced(v, name, price, now)[name].1.last() == (price, now, 1u32),
        priced(v, name, price, now)[name].1.len() <= PRICE_HISTORY_LEN,
        forall|m: Seq<char>| m != name ==> #[trigger] priced(v, name, price, now).get(m) == v.get(m),
{
}

} // verus!
