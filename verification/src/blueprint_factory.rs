use vstd::prelude::*;
use crate::types::Address;

verus! {

/// Maximum blueprints that can be crafted in a single batch.
pub const MAX_BATCH_CRAFT: u32 = 2;
/// Minimum number of components required for a valid blueprint recipe.
pub const MIN_COMPONENTS: u32 = 2;

/// Rarity tier derived from the number of components used.
#[derive(Clone, Copy, Debug, PartialEq, Eq, Structural)]
pub enum BlueprintRarity {
    /// 2–3 components.
    Common,
    /// 4–5 components.
    Uncommon,
    /// 6+ components.
    Rare,
}

/// A soul-bound ship upgrade blueprint.
#[derive(Debug)]
pub struct Blueprint {
    pub id: u64,
    /// Blueprint is soul-bound to this address until applied.
    pub owner: Address,
    pub components: Vec<String>,
    pub rarity: BlueprintRarity,
    /// True once consumed by apply_blueprint_to_ship.
    pub applied: bool,
    pub created_at: u64,
}

/// Errors of the blueprint factory.
#[derive(Clone, Copy, Debug, PartialEq, Eq, Structural)]
pub enum BlueprintError {
    BlueprintNotFound,
    InvalidComponents,
    AlreadyApplied,
    NotOwner,
    BatchTooLarge,
}

/// The blueprints; the one with id `i` is at position `i - 1` (ids start at 1).
pub struct BlueprintStore {
    blueprints: Vec<Blueprint>,
}

/// Rarity of a recipe with `count` components.
pub open spec fn rarity_of(count: int) -> BlueprintRarity {
    if count <= 3 {
        BlueprintRarity::Common
    } else if count <= 5 {
        BlueprintRarity::Uncommon
    } else {
        BlueprintRarity::Rare
    }
}

impl BlueprintStore {
    #[verifier::type_invariant]
    spec fn wf(&self) -> bool {
        &&& self.blueprints@.len() < u64::MAX
        &&& forall|i: int| 0 <= i < self.blueprints@.len() ==> #[trigger] self.blueprints@[i].id == i + 1
    }

    /// The blueprints, by id minus one.
    pub closed spec fn blueprints(&self) -> Seq<Blueprint> {
        self.blueprints@
    }

    /// A store without blueprints.
    pub fn new() -> (s: BlueprintStore)
        ensures
            s.blueprints() == Seq::<Blueprint>::empty(),
    {
        BlueprintStore { blueprints: Vec::new() }
    }
}

/// Rarity of a recipe with `count` components.
pub fn rarity_from_components(count: u32) -> (r: BlueprintRarity)
    ensures
        r == rarity_of(count as int),
{
    if count <= 3 {
        BlueprintRarity::Common
    } else if count <= 5 {
        BlueprintRarity::Uncommon
    } else {
        BlueprintRarity::Rare
    }
}

fn copy_strings(v: &Vec<String>) -> (r: Vec<String>)
    ensures
        r@ == v@,
{
    let mut r: Vec<String> = Vec::new();
    let mut i: usize = 0;
    while i < v.len()
        invariant
            0 <= i <= v@.len(),
            r@ == v@.subrange(0, i as int),
        decreases v@.len() - i,
    {
        r.push(v[i].clone());
        i += 1;
        proof { assert(r@ =~= v@.subrange(0, i as int)); }
    }
    proof { assert(r@ =~= v@); }
    r
}

/// Mint a blueprint from a recipe (at least two components) at `now`.
fn mint_blueprint(store: &mut BlueprintStore, owner: &Address, components: &Vec<String>, now: u64) -> (r: Result<u64, BlueprintError>)
    requires
        components@.len() <= u32::MAX,
        components@.len() >= MIN_COMPONENTS ==> old(store).blueprints().len() + 1 < u64::MAX,
    ensures
        components@.len() < MIN_COMPONENTS ==> r == Err::<u64, BlueprintError>(BlueprintError::InvalidComponents)
            && final(store).blueprints() == old(store).blueprints(),
        components@.len() >= MIN_COMPONENTS ==> {
            let n = old(store).blueprints().len();
            let b = final(store).blueprints()[n as int];
            &&& r == Ok::<u64, BlueprintError>((n + 1) as u64)
            &&& final(store).blueprints().len() == n + 1
            &&& final(store).blueprints().subrange(0, n as int) == old(store).blueprints()
            &&& b.id == n + 1
            &&& b.owner == *owner
            &&& b.components@ == components@
            &&& b.rarity == rarity_of(components@.len() as int)
            &&& !b.applied
            &&& b.created_at == now
        },
{
    proof { use_type_invariant(&*store); }
    if components.len() < MIN_COMPONENTS as usize {
        return Err(BlueprintError::InvalidComponents);
    }
    let id = store.blueprints.len() as u64 + 1;
    let rarity = rarity_from_components(components.len() as u32);
    let blueprint = Blueprint { id, owner: *owner, components: copy_strings(components), rarity, applied: false, created_at: now };
    let mut bs: Vec<Blueprint> = Vec::new();
    std::mem::swap(&mut bs, &mut store.blueprints);
    let ghost before = bs@;
    bs.push(blueprint);
    proof { assert(bs@.subrange(0, before.len() as int) =~= before); }
    store.blueprints = bs;
    Ok(id)
}

/// Craft a blueprint for `owner` from at least two components at `now`;
/// its rarity follows the number of components. Returns its id.
pub fn craft_blueprint(store: &mut BlueprintStore, owner: Address, components: &Vec<String>, now: u64) -> (r: Result<u64, BlueprintError>)
    requires
        components@.len() <= u32::MAX,
        components@.len() >= MIN_COMPONENTS ==> old(store).blueprints().len() + 1 < u64::MAX,
    ensures
        components@.len() < MIN_COMPONENTS ==> r == Err::<u64, BlueprintError>(BlueprintError::InvalidComponents)
            && final(store).blueprints() == old(store).blueprints(),
        components@.len() >= MIN_COMPONENTS ==> {
            let n = old(store).blueprints().len();
            let b = final(store).blueprints()[n as int];
            &&& r == Ok::<u64, BlueprintError>((n + 1) as u64)
            &&& final(store).blueprints().len() == n + 1
            &&& final(store).blueprints().subrange(0, n as int) == old(store).blueprints()
            &&& b.id == n + 1
            &&& b.owner == owner
            &&& b.components@ == components@
            &&& b.rarity == rarity_of(components@.len() as int)
            &&& !b.applied
            &&& b.created_at == now
        },
{
    mint_blueprint(store, &owner, components, now)
}

/// Craft up to two blueprints at once; nothing is crafted when a recipe is
/// invalid. Returns the ids in recipe order.
pub fn batch_craft_blueprints(store: &mut BlueprintStore, owner: Address, recipes: &Vec<Vec<String>>, now: u64) -> (r: Result<Vec<u64>, BlueprintError>)
    requires
        old(store).blueprints().len() + recipes@.len() + 1 < u64::MAX,
        forall|i: int| 0 <= i < recipes@.len() ==> (#[trigger] recipes@[i])@.len() <= u32::MAX,
    ensures
        recipes@.len() > MAX_BATCH_CRAFT ==> r == Err::<Vec<u64>, BlueprintError>(BlueprintError::BatchTooLarge),
        recipes@.len() <= MAX_BATCH_CRAFT && (exists|i: int| 0 <= i < recipes@.len() && (#[trigger] recipes@[i])@.len() < MIN_COMPONENTS)
            ==> r == Err::<Vec<u64>, BlueprintError>(BlueprintError::InvalidComponents),
        r is Err ==> final(store).blueprints() == old(store).blueprints(),
        recipes@.len() <= MAX_BATCH_CRAFT && (forall|i: int| 0 <= i < recipes@.len() ==> (#[trigger] recipes@[i])@.len() >= MIN_COMPONENTS) ==> {
            let n = old(store).blueprints().len();
            &&& r is Ok
            &&& r->Ok_0@.len() == recipes@.len()
            &&& final(store).blueprints().len() == n + recipes@.len()
            &&& final(store).blueprints().subrange(0, n as int) == old(store).blueprints()
            &&& forall|i: int| 0 <= i < recipes@.len() ==> {
                let b = #[trigger] final(store).blueprints()[n + i];
                &&& r->Ok_0@[i] == n + i + 1
                &&& b.id == n + i + 1
                &&& b.owner == owner
                &&& b.components@ == recipes@[i]@
                &&& b.rarity == rarity_of(recipes@[i]@.len() as int)
                &&& !b.applied
                &&& b.created_at == now
            }
        },
{
    if recipes.len() > MAX_BATCH_CRAFT as usize {
        return Err(BlueprintError::BatchTooLarge);
    }
    let mut k: usize = 0;
    while k < recipes.len()
        invariant
            0 <= k <= recipes@.len(),
            recipes@.len() <= MAX_BATCH_CRAFT,
            store.blueprints() == old(store).blueprints(),
            forall|i: int| 0 <= i < k ==> (#[trigger] recipes@[i])@.len() >= MIN_COMPONENTS,
        decreases recipes@.len() - k,
    {
        if recipes[k].len() < MIN_COMPONENTS as usize {
            return Err(BlueprintError::InvalidComponents);
        }
        k += 1;
    }
    let ghost n = store.blueprints().len();
    let ghost before = store.blueprints();
    let mut ids: Vec<u64> = Vec::new();
    let mut i: usize = 0;
    while i < recipes.len()
        invariant
            0 <= i <= recipes@.len(),
            n + recipes@.len() + 1 < u64::MAX,
            forall|j: int| 0 <= j < recipes@.len() ==> (#[trigger] recipes@[j])@.len() >= MIN_COMPONENTS
                && recipes@[j]@.len() <= u32::MAX,
            store.blueprints().len() == n + i,
            store.blueprints().subrange(0, n as int) == before,
            ids@.len() == i,
            forall|j: int| 0 <= j < i ==> {
                let b = #[trigger] store.blueprints()[n + j];
                &&& ids@[j] == n + j + 1
                &&& b.id == n + j + 1
                &&& b.owner == owner
                &&& b.components@ == recipes@[j]@
                &&& b.rarity == rarity_of(recipes@[j]@.len() as int)
                &&& !b.applied
                &&& b.created_at == now
            },
        decreases recipes@.len() - i,
    {
        let ghost mid = store.blueprints();
        let id = match mint_blueprint(store, &owner, &recipes[i], now) {
            Ok(id) => id,
            Err(e) => return Err(e),
        };
        proof {
            assert(store.blueprints().subrange(0, mid.len() as int) == mid);
            assert forall|j: int| 0 <= j < i implies #[trigger] store.blueprints()[n + j] == mid[n + j] by {
                assert(store.blueprints().subrange(0, mid.len() as int)[n + j] == mid[n + j]);
            }
            assert(store.blueprints().subrange(0, n as int) =~= before) by {
                assert forall|j: int| 0 <= j < n implies store.blueprints().subrange(0, n as int)[j] == before[j] by {
                    assert(store.blueprints().subrange(0, mid.len() as int)[j] == mid[j]);
                    assert(mid.subrange(0, n as int)[j] == before[j]);
                }
            }
        }
        ids.push(id);
        i += 1;
    }
    Ok(ids)
}

/// Consume a blueprint to upgrade a ship (its owner only, once).
pub fn apply_blueprint_to_ship(store: &mut BlueprintStore, owner: Address, blueprint_id: u64, ship_id: u64) -> (r: Result<(), BlueprintError>)
    ensures
        ({
            let bs = old(store).blueprints();
            let k = blueprint_id - 1;
            if blueprint_id == 0 || blueprint_id > bs.len() {
                r == Err::<(), BlueprintError>(BlueprintError::BlueprintNotFound)
            } else if bs[k].owner != owner {
                r == Err::<(), BlueprintError>(BlueprintError::NotOwner)
            } else if bs[k].applied {
                r == Err::<(), BlueprintError>(BlueprintError::AlreadyApplied)
            } else {
                &&& r == Ok::<(), BlueprintError>(())
                &&& final(store).blueprints().len() == bs.len()
                &&& forall|j: int| 0 <= j < bs.len() && j != k ==> #[trigger] final(store).blueprints()[j] == bs[j]
                &&& final(store).blueprints()[k].applied
                &&& final(store).blueprints()[k].id == bs[k].id
                &&& final(store).blueprints()[k].owner == bs[k].owner
                &&& final(store).blueprints()[k].components == bs[k].components
                &&& final(store).blueprints()[k].rarity == bs[k].rarity
                &&& final(store).blueprints()[k].created_at == bs[k].created_at
            }
        }),
        r is Err ==> final(store).blueprints() == old(store).blueprints(),
{
    proof { use_type_invariant(&*store); }
    if blueprint_id == 0 || blueprint_id > store.blueprints.len() as u64 {
        return Err(BlueprintError::BlueprintNotFound);
    }
    let k = (blueprint_id - 1) as usize;
    if store.blueprints[k].owner != owner {
        return Err(BlueprintError::NotOwner);
    }
    if store.blueprints[k].applied {
        return Err(BlueprintError::AlreadyApplied);
    }
    let mut bs: Vec<Blueprint> = Vec::new();
    std::mem::swap(&mut bs, &mut store.blueprints);
    bs[k].applied = true;
    store.blueprints = bs;
    Ok(())
}

/// A blueprint by id.
pub fn get_blueprint(store: &BlueprintStore, blueprint_id: u64) -> (r: Result<&Blueprint, BlueprintError>)
    ensures
        1 <= blueprint_id <= store.blueprints().len() ==> r is Ok
            && *r->Ok_0 == store.blueprints()[blueprint_id - 1],
        !(1 <= blueprint_id <= store.blueprints().len()) ==> r == Err::<&Blueprint, BlueprintError>(BlueprintError::BlueprintNotFound),
{
    if blueprint_id == 0 || blueprint_id > store.blueprints.len() as u64 {
        return Err(BlueprintError::BlueprintNotFound);
    }
    Ok(&store.blueprints[(blueprint_id - 1) as usize])
}

/// Law of rarity: more components never give a lower tier, and a recipe of
/// at least six components is rare.
pub proof fn lemma_rarity_monotone(a: int, b: int)
    requires
        a <= b,
    ensures
        rarity_of(a) == BlueprintRarity::Rare ==> rarity_of(b) == BlueprintRarity::Rare,
        rarity_of(b) == BlueprintRarity::Common ==> rarity_of(a) == BlueprintRarity::Common,
        b >= 6 ==> rarity_of(b) == BlueprintRarity::Rare,
{
}

} // verus!
