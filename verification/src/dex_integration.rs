use vstd::prelude::*;
use std::collections::HashMap;
use crate::types::Address;
use crate::resource_minter::{
    asset_index_of, asset_name, asset_named, balance_of, credit_harvest, credited, entries_total, harvest_entries,
    harvest_fits, lemma_asset_named, moved, plan_harvest, resources_match, shift_balance, DexOffer, HarvestError,
    HarvestResult, HarvestedResource, NebulaLayout, ResourceStore,
};

verus! {

broadcast use vstd::std_specs::hash::group_hash_axioms;

/// Most listings a player may create in a session.
pub const MAX_LISTINGS_PER_SESSION: u32 = 5;

/// Exchange listings by id, the offer counter, the number of listings each
/// player made this session, and the player who made each listing.
pub struct DexStore {
    pub offers: HashMap<u64, DexOffer>,
    pub offer_counter: u64,
    pub session_listings: HashMap<u64, u32>,
    pub listers: HashMap<u64, u64>,
}

/// Sum of the amounts harvested of the asset named `name`.
pub open spec fn listed_total(es: Seq<(int, u32)>, name: Seq<char>) -> int
    decreases es.len(),
{
    if es.len() == 0 {
        0
    } else {
        listed_total(es.drop_last(), name) + if asset_name(es.last().0) == name {
            es.last().1 as int
        } else {
            0int
        }
    }
}

/// Listings `player` made this session.
pub open spec fn listings_of(m: Map<u64, u32>, player: u64) -> int {
    if m.contains_key(player) {
        m[player] as int
    } else {
        0
    }
}

impl DexStore {
    /// An exchange without listings.
    pub fn new() -> (s: DexStore)
        ensures
            s.offers@ == Map::<u64, DexOffer>::empty(),
            s.offer_counter == 0,
            s.session_listings@ == Map::<u64, u32>::empty(),
            s.listers@ == Map::<u64, u64>::empty(),
    {
        DexStore { offers: HashMap::new(), offer_counter: 0, session_listings: HashMap::new(), listers: HashMap::new() }
    }
}

/// Advance the offer counter and return its new value.
fn next_offer_id(dex: &mut DexStore) -> (r: u64)
    requires
        old(dex).offer_counter < u64::MAX,
    ensures
        r == old(dex).offer_counter + 1,
        final(dex).offer_counter == r,
        final(dex).offers@ == old(dex).offers@,
        final(dex).session_listings@ == old(dex).session_listings@,
        final(dex).listers@ == old(dex).listers@,
{
    dex.offer_counter = dex.offer_counter + 1;
    dex.offer_counter
}

/// Amount harvested of the asset named `resource`.
fn listed_amount_of(resources: &Vec<HarvestedResource>, resource: &String, Ghost(es): Ghost<Seq<(int, u32)>>) -> (r: u32)
    requires
        resources_match(resources@, es),
        entries_total(es, -1) <= u32::MAX,
    ensures
        r == listed_total(es, resource@),
{
    let mut sum: u32 = 0;
    let mut i: usize = 0;
    while i < resources.len()
        invariant
            0 <= i <= resources@.len(),
            resources_match(resources@, es),
            entries_total(es, -1) <= u32::MAX,
            sum == listed_total(es.subrange(0, i as int), resource@),
        decreases resources@.len() - i,
    {
        proof {
            assert(es.subrange(0, i + 1).drop_last() =~= es.subrange(0, i as int));
            lemma_listed_le_total(es.subrange(0, i + 1), resource@);
            lemma_prefix_total(es, i + 1);
        }
        if resources[i].asset_id == *resource {
            sum = sum + resources[i].amount;
        }
        i += 1;
    }
    proof {
        assert(es.subrange(0, es.len() as int) =~= es);
    }
    sum
}

/// Harvest `layout` with ship `ship_id` (owned by `ship_owner`, `None` when
/// the ship does not exist) and list the harvested amount of `resource` on
/// the exchange, at most five listings per player and session. The whole
/// harvest is credited to the ship's owner; the offer records the harvested
/// amount of `resource`. Nothing changes when an error is returned.
pub fn harvest_and_list(
    dex: &mut DexStore,
    resources: &mut ResourceStore,
    player: &Address,
    ship_id: u64,
    ship_owner: Option<Address>,
    layout: &NebulaLayout,
    resource: &String,
    min_price: i128,
) -> (r: Result<(HarvestResult, DexOffer), HarvestError>)
    requires
        ship_owner is Some ==> harvest_fits(old(resources).balances@, ship_owner->0.id, harvest_entries(layout.cells@)),
        old(dex).offer_counter < u64::MAX,
    ensures
        ({
            let es = harvest_entries(layout.cells@);
            if min_price <= 0 {
                r == Err::<(HarvestResult, DexOffer), HarvestError>(HarvestError::InvalidPrice)
            } else if listings_of(old(dex).session_listings@, player.id) >= MAX_LISTINGS_PER_SESSION {
                r == Err::<(HarvestResult, DexOffer), HarvestError>(HarvestError::DexFailure)
            } else if ship_owner is None {
                r == Err::<(HarvestResult, DexOffer), HarvestError>(HarvestError::ShipNotFound)
            } else if entries_total(es, -1) == 0 {
                r == Err::<(HarvestResult, DexOffer), HarvestError>(HarvestError::EmptyHarvest)
            } else if listed_total(es, resource@) == 0 {
                r == Err::<(HarvestResult, DexOffer), HarvestError>(HarvestError::AssetNotHarvested)
            } else {
                let id = (old(dex).offer_counter + 1) as u64;
                let offer = DexOffer {
                    offer_id: id,
                    asset_id: *resource,
                    amount: listed_total(es, resource@) as u32,
                    min_price,
                    active: true,
                };
                &&& r is Ok
                &&& r->Ok_0.0.ship_id == ship_id
                &&& resources_match(r->Ok_0.0.resources@, es)
                &&& r->Ok_0.0.total_harvested == entries_total(es, -1)
                &&& r->Ok_0.1 == offer
                &&& credited(old(resources).balances@, final(resources).balances@, ship_owner->0.id, es)
                &&& final(dex).offer_counter == id
                &&& final(dex).offers@ == old(dex).offers@.insert(id, offer)
                &&& final(dex).listers@ == old(dex).listers@.insert(id, player.id)
                &&& final(dex).session_listings@ == old(dex).session_listings@.insert(
                    player.id,
                    (listings_of(old(dex).session_listings@, player.id) + 1) as u32,
                )
            }
        }),
        r is Err ==> final(resources).balances@ == old(resources).balances@
            && final(dex).offers@ == old(dex).offers@
            && final(dex).offer_counter == old(dex).offer_counter
            && final(dex).session_listings@ == old(dex).session_listings@
            && final(dex).listers@ == old(dex).listers@,
        final(resources).harvest_counter == old(resources).harvest_counter,
        final(resources).dex_offer_counter == old(resources).dex_offer_counter,
        final(resources).offers@ == old(resources).offers@,
{
    if min_price <= 0 {
        return Err(HarvestError::InvalidPrice);
    }
    let current_listings: u32 = match dex.session_listings.get(&player.id) {
        Some(n) => *n,
        None => 0,
    };
    if current_listings >= MAX_LISTINGS_PER_SESSION {
        return Err(HarvestError::DexFailure);
    }
    let owner = match ship_owner {
        Some(o) => o,
        None => return Err(HarvestError::ShipNotFound),
    };
    let ghost es = harvest_entries(layout.cells@);
    let (harvested, total_harvested) = plan_harvest(layout);
    if total_harvested == 0 {
        return Err(HarvestError::EmptyHarvest);
    }
    let listed_amount = listed_amount_of(&harvested, resource, Ghost(es));
    if listed_amount == 0 {
        return Err(HarvestError::AssetNotHarvested);
    }
    credit_harvest(resources, owner.id, layout);
    let offer_id = next_offer_id(dex);
    let offer = DexOffer { offer_id, asset_id: resource.clone(), amount: listed_amount, min_price, active: true };
    dex.offers.insert(offer_id, offer.clone());
    dex.listers.insert(offer_id, player.id);
    dex.session_listings.insert(player.id, current_listings + 1);
    Ok((HarvestResult { ship_id, resources: harvested, total_harvested }, offer))
}

/// Cancel an active listing; only the player who made it may cancel it.
/// The listed amount goes back to that player's balance of the asset.
pub fn cancel_listing(dex: &mut DexStore, resources: &mut ResourceStore, owner: &Address, offer_id: u64) -> (r: Result<DexOffer, HarvestError>)
    requires
        ({
            let offers = old(dex).offers@;
            offers.contains_key(offer_id) && old(dex).listers@.contains_key(offer_id)
                && old(dex).listers@[offer_id] == owner.id && offers[offer_id].active
                && asset_named(offers[offer_id].asset_id@) is Some
                ==> balance_of(old(resources).balances@, owner.id, asset_named(offers[offer_id].asset_id@)->0)
                    + offers[offer_id].amount <= u32::MAX
        }),
    ensures
        ({
            let offers = old(dex).offers@;
            if !offers.contains_key(offer_id) || !old(dex).listers@.contains_key(offer_id)
                || old(dex).listers@[offer_id] != owner.id || !offers[offer_id].active {
                &&& r == Err::<DexOffer, HarvestError>(HarvestError::DexFailure)
                &&& final(dex).offers@ == offers
                &&& final(resources).balances@ == old(resources).balances@
            } else {
                let o = offers[offer_id];
                let cancelled = DexOffer { active: false, ..o };
                &&& r == Ok::<DexOffer, HarvestError>(cancelled)
                &&& final(dex).offers@ == offers.insert(offer_id, cancelled)
                &&& match asset_named(o.asset_id@) {
                    Some(a) => moved(old(resources).balances@, final(resources).balances@, owner.id, a, o.amount as int),
                    None => final(resources).balances@ == old(resources).balances@,
                }
            }
        }),
        final(dex).offer_counter == old(dex).offer_counter,
        final(dex).session_listings@ == old(dex).session_listings@,
        final(dex).listers@ == old(dex).listers@,
        final(resources).harvest_counter == old(resources).harvest_counter,
        final(resources).dex_offer_counter == old(resources).dex_offer_counter,
        final(resources).offers@ == old(resources).offers@,
{
    let mut offer = match dex.offers.get(&offer_id) {
        Some(o) => o.clone(),
        None => return Err(HarvestError::DexFailure),
    };
    match dex.listers.get(&offer_id) {
        Some(l) => {
            if *l != owner.id {
                return Err(HarvestError::DexFailure);
            }
        },
        None => return Err(HarvestError::DexFailure),
    }
    if !offer.active {
        return Err(HarvestError::DexFailure);
    }
    match asset_index_of(&offer.asset_id) {
        Some(a) => {
            proof { lemma_asset_named(a as int); }
            shift_balance(resources, owner.id, a, offer.amount, true);
        },
        None => {},
    }
    offer.active = false;
    dex.offers.insert(offer_id, offer.clone());
    Ok(offer)
}

/// A listing by id.
pub fn get_offer(dex: &DexStore, offer_id: u64) -> (r: Option<DexOffer>)
    ensures
        r == (if dex.offers@.contains_key(offer_id) {
            Some(dex.offers@[offer_id])
        } else {
            None::<DexOffer>
        }),
{
    match dex.offers.get(&offer_id) {
        Some(o) => Some(o.clone()),
        None => None,
    }
}

/// The amount of one asset never exceeds the total harvest.
proof fn lemma_listed_le_total(es: Seq<(int, u32)>, name: Seq<char>)
    ensures
        0 <= listed_total(es, name) <= entries_total(es, -1),
    decreases es.len(),
{
    if es.len() > 0 {
        lemma_listed_le_total(es.drop_last(), name);
    }
}

/// A prefix of the harvest never totals more than all of it.
proof fn lemma_prefix_total(es: Seq<(int, u32)>, k: int)
    requires
        0 <= k <= es.len(),
    ensures
        entries_total(es.subrange(0, k), -1) <= entries_total(es, -1),
    decreases es.len() - k,
{
    if k < es.len() {
        lemma_prefix_total(es, k + 1);
        assert(es.subrange(0, k + 1).drop_last() =~= es.subrange(0, k));
    } else {
        assert(es.subrange(0, k) =~= es);
    }
}

/// Law of listing: a player never holds more than five listings in a
/// session; a listing raises the count by one only below the limit.
pub proof fn lemma_session_limit(before: Map<u64, u32>, player: u64)
    requires
        listings_of(before, player) < MAX_LISTINGS_PER_SESSION,
    ensures
        listings_of(before.insert(player, (listings_of(before, player) + 1) as u32), player)
            <= MAX_LISTINGS_PER_SESSION,
{
}

} // verus!
