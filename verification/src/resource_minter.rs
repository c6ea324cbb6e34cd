use vstd::prelude::*;
use std::collections::HashMap;
use crate::types::Address;

verus! {

broadcast use vstd::std_specs::hash::group_hash_axioms;

/// Number of harvestable assets.
pub const ASSET_KINDS: usize = 6;

/// Errors of harvesting and listing.
#[derive(Clone, Copy, Debug, PartialEq, Eq, Structural)]
pub enum HarvestError {
    ShipNotFound,
    EmptyHarvest,
    InvalidPrice,
    AssetNotHarvested,
    PriceOverflow,
    DexFailure,
}

/// What a cell of a nebula holds.
#[derive(Clone, Copy, Debug, PartialEq, Eq, Structural)]
pub enum CellType {
    Empty,
    StellarDust,
    Asteroid,
    GasCloud,
    DarkMatter,
    ExoticMatter,
    Wormhole,
}

/// One cell of a scanned nebula and the energy it holds.
#[derive(Clone, Copy, Debug, PartialEq, Eq, Structural)]
pub struct NebulaCell {
    pub cell_type: CellType,
    pub energy: u32,
}

/// The cells of a scanned nebula.
#[derive(Debug)]
pub struct NebulaLayout {
    pub cells: Vec<NebulaCell>,
}

/// An in-game tradeable resource.
#[derive(Clone, Copy, Debug, PartialEq, Eq, Structural)]
pub struct Resource {
    pub id: u64,
    pub owner: Address,
    pub resource_type: u32,
    pub quantity: u32,
}

/// A single harvested resource entry.
#[derive(Debug)]
pub struct HarvestedResource {
    pub asset_id: String,
    pub amount: u32,
}

/// Result of a harvest operation.
#[derive(Debug)]
pub struct HarvestResult {
    pub ship_id: u64,
    pub resources: Vec<HarvestedResource>,
    pub total_harvested: u32,
}

/// A listing of a harvested resource on the exchange.
#[derive(Debug)]
pub struct DexOffer {
    pub offer_id: u64,
    pub asset_id: String,
    pub amount: u32,
    pub min_price: i128,
    pub active: bool,
}

impl Clone for DexOffer {
    fn clone(&self) -> (r: DexOffer)
        ensures
            r == *self,
    {
        DexOffer {
            offer_id: self.offer_id,
            asset_id: self.asset_id.clone(),
            amount: self.amount,
            min_price: self.min_price,
            active: self.active,
        }
    }
}

/// Harvested balances of each owner (by asset: dust, ore, gas, dark,
/// exotic, worm), the harvest and offer counters, and the offers listed
/// through `auto_list_on_dex`.
pub struct ResourceStore {
    pub balances: HashMap<u64, [u32; 6]>,
    pub harvest_counter: u64,
    pub dex_offer_counter: u64,
    pub offers: HashMap<u64, DexOffer>,
}

/// Index of the asset a cell yields, if any.
pub open spec fn asset_of(t: CellType) -> Option<int> {
    match t {
        CellType::StellarDust => Some(0),
        CellType::Asteroid => Some(1),
        CellType::GasCloud => Some(2),
        CellType::DarkMatter => Some(3),
        CellType::ExoticMatter => Some(4),
        CellType::Wormhole => Some(5),
        CellType::Empty => None,
    }
}

/// Name of the asset with index `a`.
pub open spec fn asset_name(a: int) -> Seq<char> {
    if a == 0 {
        "dust"@
    } else if a == 1 {
        "ore"@
    } else if a == 2 {
        "gas"@
    } else if a == 3 {
        "dark"@
    } else if a == 4 {
        "exotic"@
    } else {
        "worm"@
    }
}

/// The harvest of `cells`, in order: asset index and amount of every cell
/// that yields an asset and holds energy.
pub open spec fn harvest_entries(cells: Seq<NebulaCell>) -> Seq<(int, u32)>
    decreases cells.len(),
{
    if cells.len() == 0 {
        Seq::empty()
    } else {
        let prev = harvest_entries(cells.drop_last());
        let c = cells.last();
        match asset_of(c.cell_type) {
            Some(a) => if c.energy > 0 {
                prev.push((a, c.energy))
            } else {
                prev
            },
            None => prev,
        }
    }
}

/// Sum of the amounts of the entries for asset `a` (all assets when `a` is -1).
pub open spec fn entries_total(es: Seq<(int, u32)>, a: int) -> int
    decreases es.len(),
{
    if es.len() == 0 {
        0
    } else {
        entries_total(es.drop_last(), a) + if a == -1 || es.last().0 == a {
            es.last().1 as int
        } else {
            0int
        }
    }
}

/// Whether the reported resources are exactly the entries, named.
pub open spec fn resources_match(rs: Seq<HarvestedResource>, es: Seq<(int, u32)>) -> bool {
    &&& rs.len() == es.len()
    &&& forall|i: int| 0 <= i < rs.len() ==> #[trigger] rs[i].asset_id@ == asset_name(es[i].0)
        && rs[i].amount == es[i].1
}

/// Balance of asset `a` held by `owner`.
pub open spec fn balance_of(balances: Map<u64, [u32; 6]>, owner: u64, a: int) -> int {
    if balances.contains_key(owner) {
        balances[owner]@[a] as int
    } else {
        0
    }
}

/// Whether `after` is `before` with the harvest `es` credited to `owner`.
pub open spec fn credited(before: Map<u64, [u32; 6]>, after: Map<u64, [u32; 6]>, owner: u64, es: Seq<(int, u32)>) -> bool {
    &&& after.dom() == before.dom().insert(owner)
    &&& forall|k: u64| k != owner && before.contains_key(k) ==> #[trigger] after[k] == before[k]
    &&& forall|a: int| 0 <= a < 6 ==> #[trigger] balance_of(after, owner, a) == balance_of(before, owner, a) + entries_total(es, a)
}

/// Whether crediting the harvest `es` to `owner` overflows no balance or total.
pub open spec fn harvest_fits(balances: Map<u64, [u32; 6]>, owner: u64, es: Seq<(int, u32)>) -> bool {
    &&& entries_total(es, -1) <= u32::MAX
    &&& forall|a: int| 0 <= a < 6 ==> #[trigger] balance_of(balances, owner, a) + entries_total(es, a) <= u32::MAX
}

/// The asset a cell type yields.
pub fn cell_type_to_asset(cell_type: &CellType) -> (r: Option<String>)
    ensures
        asset_of(*cell_type) is None ==> r is None,
        asset_of(*cell_type) is Some ==> r is Some && r->0@ == asset_name(asset_of(*cell_type)->0),
{
    match asset_index(cell_type) {
        Some(a) => Some(asset_string(a)),
        None => None,
    }
}

fn asset_index(cell_type: &CellType) -> (r: Option<usize>)
    ensures
        r == (match asset_of(*cell_type) {
            Some(a) => Some(a as usize),
            None => None::<usize>,
        }),
{
    match cell_type {
        CellType::StellarDust => Some(0),
        CellType::Asteroid => Some(1),
        CellType::GasCloud => Some(2),
        CellType::DarkMatter => Some(3),
        CellType::ExoticMatter => Some(4),
        CellType::Wormhole => Some(5),
        CellType::Empty => None,
    }
}

/// The name of asset `a`.
pub fn asset_string(a: usize) -> (s: String)
    requires
        a < 6,
    ensures
        s@ == asset_name(a as int),
{
    if a == 0 {
        String::from_str("dust")
    } else if a == 1 {
        String::from_str("ore")
    } else if a == 2 {
        String::from_str("gas")
    } else if a == 3 {
        String::from_str("dark")
    } else if a == 4 {
        String::from_str("exotic")
    } else {
        String::from_str("worm")
    }
}

/// Index of the asset named `name`, if it is one of the six.
pub fn asset_index_of(name: &String) -> (r: Option<usize>)
    ensures
        r is Some ==> r->0 < 6 && asset_name(r->0 as int) == name@,
        r is None ==> forall|a: int| 0 <= a < 6 ==> asset_name(a) != name@,
{
    let mut a: usize = 0;
    while a < 6
        invariant
            0 <= a <= 6,
            forall|b: int| 0 <= b < a ==> asset_name(b) != name@,
        decreases 6 - a,
    {
        let s = asset_string(a);
        if s == *name {
            return Some(a);
        }
        a += 1;
    }
    None
}

impl ResourceStore {
    /// A store without balances or offers.
    pub fn new() -> (s: ResourceStore)
        ensures
            s.balances@ == Map::<u64, [u32; 6]>::empty(),
            s.harvest_counter == 0,
            s.dex_offer_counter == 0,
            s.offers@ == Map::<u64, DexOffer>::empty(),
    {
        ResourceStore { balances: HashMap::new(), harvest_counter: 0, dex_offer_counter: 0, offers: HashMap::new() }
    }
}

/// Advance the harvest counter and return its new value.
pub fn next_harvest_id(store: &mut ResourceStore) -> (r: u64)
    requires
        old(store).harvest_counter < u64::MAX,
    ensures
        r == old(store).harvest_counter + 1,
        final(store).harvest_counter == r,
        final(store).balances@ == old(store).balances@,
        final(store).dex_offer_counter == old(store).dex_offer_counter,
        final(store).offers@ == old(store).offers@,
{
    store.harvest_counter = store.harvest_counter + 1;
    store.harvest_counter
}

/// Advance the offer counter and return its new value.
fn next_dex_offer_id(store: &mut ResourceStore) -> (r: u64)
    requires
        old(store).dex_offer_counter < u64::MAX,
    ensures
        r == old(store).dex_offer_counter + 1,
        final(store).dex_offer_counter == r,
        final(store).balances@ == old(store).balances@,
        final(store).harvest_counter == old(store).harvest_counter,
        final(store).offers@ == old(store).offers@,
{
    store.dex_offer_counter = store.dex_offer_counter + 1;
    store.dex_offer_counter
}

/// The resources `layout` yields, in cell order, with their total.
pub fn plan_harvest(layout: &NebulaLayout) -> (r: (Vec<HarvestedResource>, u32))
    requires
        entries_total(harvest_entries(layout.cells@), -1) <= u32::MAX,
    ensures
        resources_match(r.0@, harvest_entries(layout.cells@)),
        r.1 == entries_total(harvest_entries(layout.cells@), -1),
{
    let mut resources: Vec<HarvestedResource> = Vec::new();
    let mut total: u32 = 0;
    let mut i: usize = 0;
    while i < layout.cells.len()
        invariant
            0 <= i <= layout.cells@.len(),
            entries_total(harvest_entries(layout.cells@), -1) <= u32::MAX,
            resources_match(resources@, harvest_entries(layout.cells@.subrange(0, i as int))),
            total == entries_total(harvest_entries(layout.cells@.subrange(0, i as int)), -1),
        decreases layout.cells@.len() - i,
    {
        proof {
            lemma_harvest_step(layout.cells@, i as int);
            lemma_entries_total_prefix(layout.cells@, i + 1);
        }
        let ghost es0 = harvest_entries(layout.cells@.subrange(0, i as int));
        let cell = layout.cells[i];
        match asset_index(&cell.cell_type) {
            Some(a) => {
                if cell.energy > 0 {
                    let ghost rs0 = resources@;
                    resources.push(HarvestedResource { asset_id: asset_string(a), amount: cell.energy });
                    total = total + cell.energy;
                    proof {
                        let es1 = es0.push((a as int, cell.energy));
                        assert forall|j: int| 0 <= j < resources@.len() implies #[trigger] resources@[j].asset_id@
                            == asset_name(es1[j].0) && resources@[j].amount == es1[j].1 by {
                            if j < rs0.len() {
                                assert(resources@[j] == rs0[j]);
                            }
                        }
                    }
                }
            },
            None => {},
        }
        i += 1;
    }
    proof {
        assert(layout.cells@.subrange(0, layout.cells@.len() as int) =~= layout.cells@);
    }
    (resources, total)
}

/// Per-asset totals of the harvest of `layout`.
fn asset_totals(layout: &NebulaLayout) -> (r: [u32; 6])
    requires
        entries_total(harvest_entries(layout.cells@), -1) <= u32::MAX,
    ensures
        forall|a: int| 0 <= a < 6 ==> #[trigger] r@[a] == entries_total(harvest_entries(layout.cells@), a),
{
    let mut sums: [u32; 6] = [0u32; 6];
    let mut i: usize = 0;
    while i < layout.cells.len()
        invariant
            0 <= i <= layout.cells@.len(),
            entries_total(harvest_entries(layout.cells@), -1) <= u32::MAX,
            forall|a: int| 0 <= a < 6 ==> #[trigger] sums@[a]
                == entries_total(harvest_entries(layout.cells@.subrange(0, i as int)), a),
        decreases layout.cells@.len() - i,
    {
        proof {
            lemma_harvest_step(layout.cells@, i as int);
            lemma_entries_total_prefix(layout.cells@, i + 1);
            lemma_asset_total_le_total(harvest_entries(layout.cells@.subrange(0, i + 1)));
        }
        let cell = layout.cells[i];
        match asset_index(&cell.cell_type) {
            Some(a) => {
                if cell.energy > 0 {
                    proof {
                        let es1 = harvest_entries(layout.cells@.subrange(0, i + 1));
                        assert(entries_total(es1, a as int) == sums@[a as int] + cell.energy);
                        assert(entries_total(es1, a as int) <= entries_total(es1, -1));
                    }
                    sums[a] = sums[a] + cell.energy;
                }
            },
            None => {},
        }
        i += 1;
    }
    proof {
        assert(layout.cells@.subrange(0, layout.cells@.len() as int) =~= layout.cells@);
    }
    sums
}

/// Credit the harvest of `layout` to `owner`'s balances.
pub(crate) fn credit_harvest(store: &mut ResourceStore, owner: u64, layout: &NebulaLayout)
    requires
        harvest_fits(old(store).balances@, owner, harvest_entries(layout.cells@)),
    ensures
        credited(old(store).balances@, final(store).balances@, owner, harvest_entries(layout.cells@)),
        final(store).harvest_counter == old(store).harvest_counter,
        final(store).dex_offer_counter == old(store).dex_offer_counter,
        final(store).offers@ == old(store).offers@,
{
    let sums = asset_totals(layout);
    let mut bal: [u32; 6] = match store.balances.get(&owner) {
        Some(b) => *b,
        None => [0u32; 6],
    };
    let ghost start = bal;
    proof {
        assert forall|a: int| 0 <= a < 6 implies #[trigger] start@[a] == balance_of(old(store).balances@, owner, a) by {}
    }
    let mut a: usize = 0;
    while a < 6
        invariant
            0 <= a <= 6,
            forall|b: int| 0 <= b < 6 ==> #[trigger] start@[b] + sums@[b] <= u32::MAX,
            forall|b: int| 0 <= b < a ==> #[trigger] bal@[b] == start@[b] + sums@[b],
            forall|b: int| a <= b < 6 ==> #[trigger] bal@[b] == start@[b],
        decreases 6 - a,
    {
        bal[a] = bal[a] + sums[a];
        a += 1;
    }
    store.balances.insert(owner, bal);
}

/// Whether `after` is `before` with `delta` added to `owner`'s balance of
/// asset `a`, and every other balance as it was.
pub open spec fn moved(before: Map<u64, [u32; 6]>, after: Map<u64, [u32; 6]>, owner: u64, a: int, delta: int) -> bool {
    &&& after.dom() == before.dom().insert(owner)
    &&& forall|k: u64| k != owner && before.contains_key(k) ==> #[trigger] after[k] == before[k]
    &&& forall|b: int| 0 <= b < 6 ==> #[trigger] balance_of(after, owner, b) == balance_of(before, owner, b)
        + if b == a { delta } else { 0int }
}

/// The asset named `name`, if one is.
pub open spec fn asset_named(name: Seq<char>) -> Option<int> {
    if exists|a: int| 0 <= a < 6 && asset_name(a) == name {
        Some(choose|a: int| 0 <= a < 6 && asset_name(a) == name)
    } else {
        None
    }
}

/// The six assets have six different names.
pub proof fn lemma_asset_names_distinct(a: int, b: int)
    requires
        0 <= a < 6,
        0 <= b < 6,
        a != b,
    ensures
        asset_name(a) != asset_name(b),
{
    reveal_strlit("dust");
    reveal_strlit("ore");
    reveal_strlit("gas");
    reveal_strlit("dark");
    reveal_strlit("exotic");
    reveal_strlit("worm");
    assert("dust"@.len() == 4 && "dust"@[0] == 'd' && "dust"@[1] == 'u');
    assert("ore"@.len() == 3 && "ore"@[0] == 'o');
    assert("gas"@.len() == 3 && "gas"@[0] == 'g');
    assert("dark"@.len() == 4 && "dark"@[0] == 'd' && "dark"@[1] == 'a');
    assert("exotic"@.len() == 6);
    assert("worm"@.len() == 4 && "worm"@[0] == 'w');
    if asset_name(a) == asset_name(b) {
        assert(asset_name(a).len() == asset_name(b).len());
        assert(asset_name(a)[0] == asset_name(b)[0]);
        assert(asset_name(a)[1] == asset_name(b)[1]);
    }
}

/// `asset_named` finds the asset of a name.
pub proof fn lemma_asset_named(a: int)
    requires
        0 <= a < 6,
    ensures
        asset_named(asset_name(a)) == Some(a),
{
    let name = asset_name(a);
    assert(0 <= a < 6 && asset_name(a) == name);
    let c = choose|c: int| 0 <= c < 6 && asset_name(c) == name;
    if c != a {
        lemma_asset_names_distinct(a, c);
    }
}

/// Add `amount` to (`add`) or take it from (`!add`) `owner`'s balance of asset `a`.
pub(crate) fn shift_balance(store: &mut ResourceStore, owner: u64, a: usize, amount: u32, add: bool)
    requires
        a < 6,
        add ==> balance_of(old(store).balances@, owner, a as int) + amount <= u32::MAX,
        !add ==> balance_of(old(store).balances@, owner, a as int) >= amount,
    ensures
        moved(old(store).balances@, final(store).balances@, owner, a as int, if add { amount as int } else { -amount }),
        final(store).harvest_counter == old(store).harvest_counter,
        final(store).dex_offer_counter == old(store).dex_offer_counter,
        final(store).offers@ == old(store).offers@,
{
    let mut bal: [u32; 6] = match store.balances.get(&owner) {
        Some(b) => *b,
        None => [0u32; 6],
    };
    let ghost start = bal;
    proof {
        assert forall|b: int| 0 <= b < 6 implies #[trigger] start@[b] == balance_of(old(store).balances@, owner, b) by {}
    }
    if add {
        bal[a] = bal[a] + amount;
    } else {
        bal[a] = bal[a] - amount;
    }
    store.balances.insert(owner, bal);
}

/// Scan `layout` with ship `ship_id`, owned by `ship_owner` (`None` when the
/// ship does not exist), and credit the resources of every non-empty cell to
/// the owner.
pub fn harvest_resources(
    store: &mut ResourceStore,
    ship_id: u64,
    ship_owner: Option<Address>,
    layout: &NebulaLayout,
) -> (r: Result<HarvestResult, HarvestError>)
    requires
        ship_owner is Some ==> harvest_fits(old(store).balances@, ship_owner->0.id, harvest_entries(layout.cells@)),
    ensures
        ship_owner is None ==> r == Err::<HarvestResult, HarvestError>(HarvestError::ShipNotFound),
        ship_owner is Some && entries_total(harvest_entries(layout.cells@), -1) == 0
            ==> r == Err::<HarvestResult, HarvestError>(HarvestError::EmptyHarvest),
        r is Err ==> final(store).balances@ == old(store).balances@,
        ship_owner is Some && entries_total(harvest_entries(layout.cells@), -1) > 0 ==> {
            let es = harvest_entries(layout.cells@);
            &&& r is Ok
            &&& r->Ok_0.ship_id == ship_id
            &&& resources_match(r->Ok_0.resources@, es)
            &&& r->Ok_0.total_harvested == entries_total(es, -1)
            &&& credited(old(store).balances@, final(store).balances@, ship_owner->0.id, es)
        },
        final(store).harvest_counter == old(store).harvest_counter,
        final(store).dex_offer_counter == old(store).dex_offer_counter,
        final(store).offers@ == old(store).offers@,
{
    let owner = match ship_owner {
        Some(o) => o,
        None => return Err(HarvestError::ShipNotFound),
    };
    let (resources, total_harvested) = plan_harvest(layout);
    if total_harvested == 0 {
        return Err(HarvestError::EmptyHarvest);
    }
    credit_harvest(store, owner.id, layout);
    Ok(HarvestResult { ship_id, resources, total_harvested })
}

/// List a harvested resource on the exchange at a minimum price.
pub fn auto_list_on_dex(store: &mut ResourceStore, resource: &String, min_price: i128) -> (r: Result<DexOffer, HarvestError>)
    requires
        min_price > 0 ==> old(store).dex_offer_counter < u64::MAX,
    ensures
        min_price <= 0 ==> r == Err::<DexOffer, HarvestError>(HarvestError::InvalidPrice)
            && final(store).dex_offer_counter == old(store).dex_offer_counter
            && final(store).offers@ == old(store).offers@,
        min_price > 0 ==> {
            let id = (old(store).dex_offer_counter + 1) as u64;
            let offer = DexOffer { offer_id: id, asset_id: *resource, amount: 0, min_price, active: true };
            &&& r == Ok::<DexOffer, HarvestError>(offer)
            &&& final(store).dex_offer_counter == id
            &&& final(store).offers@ == old(store).offers@.insert(id, offer)
        },
        final(store).balances@ == old(store).balances@,
        final(store).harvest_counter == old(store).harvest_counter,
{
    if min_price <= 0 {
        return Err(HarvestError::InvalidPrice);
    }
    let offer_id = next_dex_offer_id(store);
    let offer = DexOffer { offer_id, asset_id: resource.clone(), amount: 0, min_price, active: true };
    store.offers.insert(offer_id, offer.clone());
    Ok(offer)
}

/// Balance of the named asset held by `owner` (zero for unknown names).
pub fn get_resource_balance(store: &ResourceStore, owner: &Address, asset: &String) -> (r: u32)
    ensures
        (exists|a: int| 0 <= a < 6 && asset_name(a) == asset@) ==> exists|a: int|
            0 <= a < 6 && asset_name(a) == asset@ && r == balance_of(store.balances@, owner.id, a),
        (forall|a: int| 0 <= a < 6 ==> asset_name(a) != asset@) ==> r == 0,
{
    match asset_index_of(asset) {
        None => 0,
        Some(a) => match store.balances.get(&owner.id) {
            Some(b) => b[a],
            None => 0,
        },
    }
}

/// What one more cell adds to the harvest of a prefix.
pub open spec fn cell_adds(c: NebulaCell, a: int) -> int {
    match asset_of(c.cell_type) {
        Some(b) => if c.energy > 0 && (a == -1 || b == a) {
            c.energy as int
        } else {
            0int
        },
        None => 0int,
    }
}

/// The harvest of the first `k + 1` cells is that of the first `k` with cell
/// `k` added.
proof fn lemma_harvest_step(cells: Seq<NebulaCell>, k: int)
    requires
        0 <= k < cells.len(),
    ensures
        harvest_entries(cells.subrange(0, k + 1)) == (match asset_of(cells[k].cell_type) {
            Some(a) => if cells[k].energy > 0 {
                harvest_entries(cells.subrange(0, k)).push((a, cells[k].energy))
            } else {
                harvest_entries(cells.subrange(0, k))
            },
            None => harvest_entries(cells.subrange(0, k)),
        }),
        forall|a: int| #[trigger] entries_total(harvest_entries(cells.subrange(0, k + 1)), a)
            == entries_total(harvest_entries(cells.subrange(0, k)), a) + cell_adds(cells[k], a),
{
    assert(cells.subrange(0, k + 1).drop_last() =~= cells.subrange(0, k));
    assert(cells.subrange(0, k + 1).last() == cells[k]);
    let pre = harvest_entries(cells.subrange(0, k));
    match asset_of(cells[k].cell_type) {
        Some(b) => {
            if cells[k].energy > 0 {
                assert(pre.push((b, cells[k].energy)).drop_last() =~= pre);
            }
        },
        None => {},
    }
}

/// Entries of a longer prefix extend those of the shorter one.
proof fn lemma_entries_total_prefix(cells: Seq<NebulaCell>, k: int)
    requires
        0 <= k <= cells.len(),
    ensures
        entries_total(harvest_entries(cells.subrange(0, k)), -1) <= entries_total(harvest_entries(cells), -1),
    decreases cells.len() - k,
{
    if k < cells.len() {
        lemma_entries_total_prefix(cells, k + 1);
        lemma_harvest_step(cells, k);
        assert(cell_adds(cells[k], -1) >= 0);
    } else {
        assert(cells.subrange(0, k) =~= cells);
    }
}

/// The total of one asset never exceeds the total of all.
proof fn lemma_asset_total_le_total(es: Seq<(int, u32)>)
    ensures
        forall|a: int| 0 <= a < 6 ==> 0 <= #[trigger] entries_total(es, a) <= entries_total(es, -1),
    decreases es.len(),
{
    if es.len() > 0 {
        lemma_asset_total_le_total(es.drop_last());
        assert forall|a: int| 0 <= a < 6 implies 0 <= #[trigger] entries_total(es, a) <= entries_total(es, -1) by {
            assert(0 <= entries_total(es.drop_last(), a) <= entries_total(es.drop_last(), -1));
        }
    }
}

/// Law of harvesting: the reported total is the sum of the per-asset totals
/// credited to the owner.
pub proof fn lemma_total_is_sum_of_assets(es: Seq<(int, u32)>)
    requires
        forall|i: int| 0 <= i < es.len() ==> 0 <= (#[trigger] es[i]).0 < 6,
    ensures
        entries_total(es, -1) == entries_total(es, 0) + entries_total(es, 1) + entries_total(es, 2)
            + entries_total(es, 3) + entries_total(es, 4) + entries_total(es, 5),
    decreases es.len(),
{
    if es.len() > 0 {
        lemma_total_is_sum_of_assets(es.drop_last());
        assert(0 <= es[es.len() - 1].0 < 6);
    }
}

/// Every harvest entry names one of the six assets and holds energy.
pub proof fn lemma_entries_are_assets(cells: Seq<NebulaCell>)
    ensures
        forall|i: int| 0 <= i < harvest_entries(cells).len() ==> 0 <= (#[trigger] harvest_entries(cells)[i]).0 < 6
            && harvest_entries(cells)[i].1 > 0,
    decreases cells.len(),
{
    if cells.len() > 0 {
        lemma_entries_are_assets(cells.drop_last());
        let prev = harvest_entries(cells.drop_last());
        let c = cells.last();
        match asset_of(c.cell_type) {
            Some(a) => {
                if c.energy > 0 {
                    assert forall|i: int| 0 <= i < prev.push((a, c.energy)).len() implies 0 <= (
                    #[trigger] prev.push((a, c.energy))[i]).0 < 6 && prev.push((a, c.energy))[i].1 > 0 by {
                        if i < prev.len() {
                            assert(prev.push((a, c.energy))[i] == prev[i]);
                        }
                    }
                }
            },
            None => {},
        }
    }
}

/// Law of harvesting: every resource cell yields the asset of its own name
/// (dust, ore, gas, dark and exotic matter, wormhole energy), and empty cells
/// yield nothing.
pub proof fn lemma_cells_yield_their_own_assets()
    ensures
        asset_name(asset_of(CellType::StellarDust)->0) == "dust"@,
        asset_name(asset_of(CellType::Asteroid)->0) == "ore"@,
        asset_name(asset_of(CellType::GasCloud)->0) == "gas"@,
        asset_name(asset_of(CellType::DarkMatter)->0) == "dark"@,
        asset_name(asset_of(CellType::ExoticMatter)->0) == "exotic"@,
        asset_name(asset_of(CellType::Wormhole)->0) == "worm"@,
        asset_of(CellType::StellarDust) is Some,
        asset_of(CellType::Asteroid) is Some,
        asset_of(CellType::GasCloud) is Some,
        asset_of(CellType::DarkMatter) is Some,
        asset_of(CellType::ExoticMatter) is Some,
        asset_of(CellType::Wormhole) is Some,
        asset_of(CellType::Empty) is None,
{
}

} // verus!
