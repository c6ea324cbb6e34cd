use vstd::prelude::*;
use std::collections::HashMap;
use crate::types::Address;

verus! {

broadcast use vstd::std_specs::hash::group_hash_axioms;

/// Essence bonus distributed to the referrer after the new nomad's first scan.
pub const ESSENCE_REWARD: i128 = 100;
/// Maximum number of rewards a referrer may claim in a single calendar day.
pub const MAX_DAILY_CLAIMS: u32 = 10;
/// Seconds in one day, which give the day bucket of a claim.
pub const SECS_PER_DAY: u64 = 86_400;

/// A referral of a new nomad by a referrer.
#[derive(Clone, Copy, Debug, PartialEq, Eq, Structural)]
pub struct Referral {
    pub id: u64,
    pub referrer: Address,
    pub new_nomad: Address,
    pub registered_at: u64,
    /// True once the referrer has claimed the reward.
    pub claimed: bool,
    /// True once the new nomad has completed their first scan.
    pub first_scan_done: bool,
}

/// Errors of the referral system.
#[derive(Clone, Copy, Debug, PartialEq, Eq, Structural)]
pub enum ReferralError {
    AlreadyReferred,
    SelfReferral,
    ReferralNotFound,
    AlreadyClaimed,
    FirstScanNotDone,
    DailyClaimCapReached,
    /// The claimant is not the referrer the referral names
    NotReferrer,
}

/// Referrals by the new nomad's id, the referral counter, and the claims
/// each referrer made each day (keyed by `daily_key`).
pub struct ReferralStore {
    pub referrals: HashMap<u64, Referral>,
    pub count: u64,
    pub daily_claims: HashMap<u128, u32>,
}

/// Key of the claims of `referrer` on day `day`.
pub open spec fn daily_key(referrer: u64, day: u64) -> u128 {
    (referrer * 0x1_0000_0000_0000_0000 + day) as u128
}

/// Claims counted under a key.
pub open spec fn claims_of(m: Map<u128, u32>, k: u128) -> u32 {
    if m.contains_key(k) {
        m[k]
    } else {
        0
    }
}

impl ReferralStore {
    /// A store without referrals.
    pub fn new() -> (s: ReferralStore)
        ensures
            s.referrals@ == Map::<u64, Referral>::empty(),
            s.count == 0,
            s.daily_claims@ == Map::<u128, u32>::empty(),
    {
        ReferralStore { referrals: HashMap::new(), count: 0, daily_claims: HashMap::new() }
    }
}

fn key_of(referrer: u64, day: u64) -> (k: u128)
    ensures
        k == daily_key(referrer, day),
{
    proof {
        assert(referrer * 0x1_0000_0000_0000_0000 + day <= 0xffff_ffff_ffff_ffff_ffff_ffff_ffff_ffff)
            by (nonlinear_arith)
            requires referrer <= 0xffff_ffff_ffff_ffff, day <= 0xffff_ffff_ffff_ffff;
    }
    (referrer as u128) * 0x1_0000_0000_0000_0000 + (day as u128)
}

/// Record that `referrer` referred `new_nomad` at `now`; each nomad can be
/// referred once, and not by itself. Returns the referral's id.
pub fn register_referral(store: &mut ReferralStore, referrer: Address, new_nomad: Address, now: u64) -> (r: Result<u64, ReferralError>)
    requires
        referrer != new_nomad && !old(store).referrals@.contains_key(new_nomad.id) ==> old(store).count < u64::MAX,
    ensures
        referrer == new_nomad ==> r == Err::<u64, ReferralError>(ReferralError::SelfReferral),
        referrer != new_nomad && old(store).referrals@.contains_key(new_nomad.id)
            ==> r == Err::<u64, ReferralError>(ReferralError::AlreadyReferred),
        r is Err ==> final(store).referrals@ == old(store).referrals@ && final(store).count == old(store).count,
        referrer != new_nomad && !old(store).referrals@.contains_key(new_nomad.id) ==> {
            let id = (old(store).count + 1) as u64;
            &&& r == Ok::<u64, ReferralError>(id)
            &&& final(store).count == id
            &&& final(store).referrals@ == old(store).referrals@.insert(
                new_nomad.id,
                Referral { id, referrer, new_nomad, registered_at: now, claimed: false, first_scan_done: false },
            )
        },
        final(store).daily_claims@ == old(store).daily_claims@,
{
    if referrer == new_nomad {
        return Err(ReferralError::SelfReferral);
    }
    if store.referrals.contains_key(&new_nomad.id) {
        return Err(ReferralError::AlreadyReferred);
    }
    let id = store.count + 1;
    store.count = id;
    let referral = Referral { id, referrer, new_nomad, registered_at: now, claimed: false, first_scan_done: false };
    store.referrals.insert(new_nomad.id, referral);
    Ok(id)
}

/// Record that `nomad` completed its first scan, unlocking the reward.
pub fn mark_first_scan(store: &mut ReferralStore, nomad: Address) -> (r: Result<(), ReferralError>)
    ensures
        !old(store).referrals@.contains_key(nomad.id) ==> r == Err::<(), ReferralError>(ReferralError::ReferralNotFound)
            && final(store).referrals@ == old(store).referrals@,
        old(store).referrals@.contains_key(nomad.id) ==> r == Ok::<(), ReferralError>(())
            && final(store).referrals@ == old(store).referrals@.insert(
                nomad.id,
                Referral { first_scan_done: true, ..old(store).referrals@[nomad.id] },
            ),
        final(store).count == old(store).count,
        final(store).daily_claims@ == old(store).daily_claims@,
{
    let mut referral = match store.referrals.get(&nomad.id) {
        Some(r) => *r,
        None => return Err(ReferralError::ReferralNotFound),
    };
    referral.first_scan_done = true;
    store.referrals.insert(nomad.id, referral);
    Ok(())
}

/// Claim the essence bonus of the referral of `new_nomad` at `now`: only by
/// the referrer it names, once per referral, after the first scan, and at most
/// ten claims per referrer and day.
pub fn claim_referral_reward(store: &mut ReferralStore, referrer: Address, new_nomad: Address, now: u64) -> (r: Result<i128, ReferralError>)
    ensures
        ({
            let rs = old(store).referrals@;
            let key = daily_key(referrer.id, now / SECS_PER_DAY);
            let used = claims_of(old(store).daily_claims@, key);
            if !rs.contains_key(new_nomad.id) {
                r == Err::<i128, ReferralError>(ReferralError::ReferralNotFound)
            } else if rs[new_nomad.id].referrer != referrer {
                r == Err::<i128, ReferralError>(ReferralError::NotReferrer)
            } else if !rs[new_nomad.id].first_scan_done {
                r == Err::<i128, ReferralError>(ReferralError::FirstScanNotDone)
            } else if rs[new_nomad.id].claimed {
                r == Err::<i128, ReferralError>(ReferralError::AlreadyClaimed)
            } else if used >= MAX_DAILY_CLAIMS {
                r == Err::<i128, ReferralError>(ReferralError::DailyClaimCapReached)
            } else {
                &&& r == Ok::<i128, ReferralError>(ESSENCE_REWARD)
                &&& final(store).daily_claims@ == old(store).daily_claims@.insert(key, (used + 1) as u32)
                &&& final(store).referrals@ == rs.insert(new_nomad.id, Referral { claimed: true, ..rs[new_nomad.id] })
            }
        }),
        r is Err ==> final(store).referrals@ == old(store).referrals@
            && final(store).daily_claims@ == old(store).daily_claims@,
        final(store).count == old(store).count,
{
    let mut referral = match store.referrals.get(&new_nomad.id) {
        Some(r) => *r,
        None => return Err(ReferralError::ReferralNotFound),
    };
    if referral.referrer != referrer {
        return Err(ReferralError::NotReferrer);
    }
    if !referral.first_scan_done {
        return Err(ReferralError::FirstScanNotDone);
    }
    if referral.claimed {
        return Err(ReferralError::AlreadyClaimed);
    }
    let day = now / SECS_PER_DAY;
    let key = key_of(referrer.id, day);
    let daily_count: u32 = match store.daily_claims.get(&key) {
        Some(c) => *c,
        None => 0,
    };
    if daily_count >= MAX_DAILY_CLAIMS {
        return Err(ReferralError::DailyClaimCapReached);
    }
    store.daily_claims.insert(key, daily_count + 1);
    referral.claimed = true;
    store.referrals.insert(new_nomad.id, referral);
    Ok(ESSENCE_REWARD)
}

/// The referral of a nomad.
pub fn get_referral(store: &ReferralStore, new_nomad: Address) -> (r: Result<Referral, ReferralError>)
    ensures
        store.referrals@.contains_key(new_nomad.id) ==> r == Ok::<Referral, ReferralError>(store.referrals@[new_nomad.id]),
        !store.referrals@.contains_key(new_nomad.id) ==> r == Err::<Referral, ReferralError>(ReferralError::ReferralNotFound),
{
    match store.referrals.get(&new_nomad.id) {
        Some(r) => Ok(*r),
        None => Err(ReferralError::ReferralNotFound),
    }
}

/// Law of referrals: distinct claimants or days never share a claim counter,
/// so each referrer's daily cap counts only its own claims of that day.
pub proof fn lemma_daily_keys_distinct(a: u64, d1: u64, b: u64, d2: u64)
    requires
        a != b || d1 != d2,
    ensures
        daily_key(a, d1) != daily_key(b, d2),
{
    assert(a * 0x1_0000_0000_0000_0000 + d1 != b * 0x1_0000_0000_0000_0000 + d2) by (nonlinear_arith)
        requires a != b || d1 != d2, d1 < 0x1_0000_0000_0000_0000, d2 < 0x1_0000_0000_0000_0000;
    assert(a * 0x1_0000_0000_0000_0000 + d1 <= 0xffff_ffff_ffff_ffff_ffff_ffff_ffff_ffff) by (nonlinear_arith)
        requires a <= 0xffff_ffff_ffff_ffff, d1 <= 0xffff_ffff_ffff_ffff;
    assert(b * 0x1_0000_0000_0000_0000 + d2 <= 0xffff_ffff_ffff_ffff_ffff_ffff_ffff_ffff) by (nonlinear_arith)
        requires b <= 0xffff_ffff_ffff_ffff, d2 <= 0xffff_ffff_ffff_ffff;
}

} // verus!
