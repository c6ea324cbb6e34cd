use vstd::prelude::*;
use crate::types::Address;

verus! {

/// Maximum hops allowed in a single route.
pub const MAX_ROUTE_HOPS: u32 = 12;
/// Maximum edges accepted in a single batch-add call.
pub const MAX_CONNECTIONS_PER_BATCH: u32 = 20;

/// Errors of the navigation planner.
#[derive(Clone, Copy, Debug, PartialEq, Eq, Structural)]
pub enum NavError {
    NotInitialized,
    AlreadyInitialized,
    /// start == dest, or an edge from a nebula to itself
    SameNebula,
    /// No path was found within the hop limit
    NoValidRoute,
    /// Provided route exceeds max_hops
    TooManyHops,
    /// Route is empty
    RouteEmpty,
    /// A consecutive pair of the route has no registered connection
    InvalidNebula,
    /// Batch size exceeds MAX_CONNECTIONS_PER_BATCH
    BatchTooLarge,
}

/// A directed edge in the nebula navigation graph.
#[derive(Clone, Copy, Debug, PartialEq, Eq, Structural)]
pub struct RouteEdge {
    pub from: u64,
    /// Destination nebula
    pub to: u64,
    /// Fuel units required to traverse this edge
    pub fuel_cost: u32,
    /// Hazard level 0–100 (higher = more dangerous)
    pub hazard_level: u32,
}

/// The result of a successful pathfinding call.
#[derive(Clone, Debug)]
pub struct NavPath {
    /// Ordered list of nebula IDs: [start, …, dest]
    pub hops: Vec<u64>,
    /// Sum of fuel_cost along every traversed edge
    pub total_fuel: u32,
    /// Average hazard across the route (0–100)
    pub risk_score: u32,
    /// Number of edges traversed (hops.len() - 1)
    pub hop_count: u32,
}

/// Configuration of the navigation planner.
#[derive(Clone, Copy, Debug, PartialEq, Eq, Structural)]
pub struct NavConfig {
    pub admin: Address,
    pub max_hops: u32,
}

/// The navigation graph: its configuration (once initialised) and its
/// directed edges. Edges leaving one nebula keep the order in which they were
/// first registered.
pub struct NavGraph {
    config: Option<NavConfig>,
    edges: Vec<RouteEdge>,
}

/// Whether `e` is the edge `from → to`.
pub open spec fn joins(e: RouteEdge, from: u64, to: u64) -> bool {
    e.from == from && e.to == to
}

/// Whether some edge of `edges` goes `from → to`.
pub open spec fn has_edge(edges: Seq<RouteEdge>, from: u64, to: u64) -> bool {
    exists|i: int| 0 <= i < edges.len() && joins(#[trigger] edges[i], from, to)
}

/// Position of the edge `from → to` in `edges` (edges are unique per pair).
pub open spec fn edge_pos(edges: Seq<RouteEdge>, from: u64, to: u64) -> int {
    choose|i: int| 0 <= i < edges.len() && joins(#[trigger] edges[i], from, to)
}

/// The edge `from → to`, if registered.
pub open spec fn edge_between(edges: Seq<RouteEdge>, from: u64, to: u64) -> Option<RouteEdge> {
    if has_edge(edges, from, to) {
        Some(edges[edge_pos(edges, from, to)])
    } else {
        None
    }
}

/// The edges leaving `n`, in registration order.
pub open spec fn neighbors_of(edges: Seq<RouteEdge>, n: u64) -> Seq<RouteEdge> {
    edges.filter(leaves(n))
}

/// Whether an edge leaves `n`.
pub open spec fn leaves(n: u64) -> spec_fn(RouteEdge) -> bool {
    |e: RouteEdge| e.from == n
}

/// The edge list after registering `e`: an existing edge between the same
/// pair is replaced in place, otherwise `e` is appended.
pub open spec fn upsert_edge(edges: Seq<RouteEdge>, e: RouteEdge) -> Seq<RouteEdge> {
    if has_edge(edges, e.from, e.to) {
        edges.update(edge_pos(edges, e.from, e.to), e)
    } else {
        edges.push(e)
    }
}

/// Whether no two edges join the same ordered pair of nebulae.
pub open spec fn unique_pairs(edges: Seq<RouteEdge>) -> bool {
    forall|i: int, j: int|
        0 <= i < edges.len() && 0 <= j < edges.len() && i != j
            ==> !joins(#[trigger] edges[i], edges[j].from, #[trigger] edges[j].to)
}

/// The edge stored for a request `from → to` with the given cost and hazard:
/// the hazard is clamped at 100.
pub open spec fn stored_edge(from: u64, to: u64, fuel_cost: u32, hazard_level: u32) -> RouteEdge {
    RouteEdge {
        from,
        to,
        fuel_cost,
        hazard_level: if hazard_level < 100 { hazard_level } else { 100 },
    }
}

/// Whether every consecutive pair of `route` is joined by an edge.
pub open spec fn route_connected(edges: Seq<RouteEdge>, route: Seq<u64>) -> bool {
    forall|i: int| 0 <= i < route.len() - 1 ==> #[trigger] has_edge(edges, route[i], route[i + 1])
}

/// Sum of the hazards, and number of edges found, over the first `k` pairs of `path`.
pub open spec fn hazard_totals(edges: Seq<RouteEdge>, path: Seq<u64>, k: int) -> (int, int)
    decreases k,
{
    if k <= 0 {
        (0, 0)
    } else {
        let prev = hazard_totals(edges, path, k - 1);
        match edge_between(edges, path[k - 1], path[k]) {
            Some(e) => (prev.0 + e.hazard_level, prev.1 + 1),
            None => prev,
        }
    }
}

/// Average hazard over the registered edges of consecutive pairs of `path`
/// (0 when there are none).
pub open spec fn path_risk_of(edges: Seq<RouteEdge>, path: Seq<u64>) -> u32 {
    if path.len() <= 1 {
        0
    } else {
        let t = hazard_totals(edges, path, path.len() - 1);
        if t.1 == 0 {
            0
        } else {
            (t.0 / t.1) as u32
        }
    }
}

/// `a + b`, saturated at `u32::MAX`.
pub open spec fn sat_add(a: u32, b: u32) -> u32 {
    if a + b > u32::MAX {
        u32::MAX
    } else {
        (a + b) as u32
    }
}

/// Fuel spent along the first `k` edges of `path`, each addition saturating.
pub open spec fn path_fuel(edges: Seq<RouteEdge>, path: Seq<u64>, k: int) -> u32
    decreases k,
{
    if k <= 0 {
        0
    } else {
        let e = edge_between(edges, path[k - 1], path[k]);
        sat_add(path_fuel(edges, path, k - 1), if e is Some { e->0.fuel_cost } else { 0 })
    }
}

impl NavGraph {
    #[verifier::type_invariant]
    spec fn inv(self) -> bool {
        &&& forall|i: int|
            0 <= i < self.edges@.len() ==> (#[trigger] self.edges@[i]).hazard_level <= 100
                && self.edges@[i].from != self.edges@[i].to
        &&& forall|i: int, j: int|
            0 <= i < self.edges@.len() && 0 <= j < self.edges@.len() && i != j
                ==> !joins(#[trigger] self.edges@[i], self.edges@[j].from, #[trigger] self.edges@[j].to)
        &&& self.config matches Some(c) ==> c.max_hops == MAX_ROUTE_HOPS
    }

    /// The configuration, once initialised.
    pub closed spec fn config(&self) -> Option<NavConfig> {
        self.config
    }

    /// The registered edges.
    pub closed spec fn edges(&self) -> Seq<RouteEdge> {
        self.edges@
    }

    /// An empty, uninitialised graph.
    pub fn new() -> (g: NavGraph)
        ensures
            g.config() is None,
            g.edges() == Seq::<RouteEdge>::empty(),
            unique_pairs(g.edges()),
    {
        NavGraph { config: None, edges: Vec::new() }
    }
}

/// With unique edges, the edge at any position joining `from → to` is the one
/// `edge_between` names.
proof fn lemma_edge_unique(edges: Seq<RouteEdge>, from: u64, to: u64, i: int)
    requires
        0 <= i < edges.len(),
        joins(edges[i], from, to),
        forall|a: int, b: int|
            0 <= a < edges.len() && 0 <= b < edges.len() && a != b
                ==> !joins(#[trigger] edges[a], edges[b].from, #[trigger] edges[b].to),
    ensures
        has_edge(edges, from, to),
        edge_pos(edges, from, to) == i,
        edge_between(edges, from, to) == Some(edges[i]),
{
    assert(has_edge(edges, from, to));
    let p = edge_pos(edges, from, to);
    if p != i {
        assert(!joins(edges[p], edges[i].from, edges[i].to));
    }
}

/// Index of `id` in `nodes`, if present (first occurrence).
fn find_idx(nodes: &Vec<u64>, id: u64) -> (r: Option<usize>)
    ensures
        match r {
            Some(i) => i < nodes@.len() && nodes@[i as int] == id
                && forall|j: int| 0 <= j < i ==> nodes@[j] != id,
            None => !nodes@.contains(id),
        },
{
    let mut i: usize = 0;
    while i < nodes.len()
        invariant
            0 <= i <= nodes@.len(),
            forall|j: int| 0 <= j < i ==> nodes@[j] != id,
        decreases nodes@.len() - i,
    {
        if nodes[i] == id {
            return Some(i);
        }
        i += 1;
    }
    None
}

/// Initialise the navigation graph. Must be called once.
pub fn initialize_nav_graph(g: &mut NavGraph, admin: &Address) -> (r: Result<(), NavError>)
    ensures
        old(g).config() is Some ==> r == Err::<(), NavError>(NavError::AlreadyInitialized)
            && final(g).config() == old(g).config(),
        old(g).config() is None ==> r is Ok
            && final(g).config() == Some(NavConfig { admin: *admin, max_hops: MAX_ROUTE_HOPS }),
        final(g).edges() == old(g).edges(),
{
    proof { use_type_invariant(&*g); }
    if g.config.is_some() {
        return Err(NavError::AlreadyInitialized);
    }
    g.config = Some(NavConfig { admin: *admin, max_hops: MAX_ROUTE_HOPS });
    Ok(())
}

/// The planner's configuration, once initialised.
pub fn get_nav_config(g: &NavGraph) -> (r: Option<NavConfig>)
    ensures
        r == g.config(),
{
    g.config
}

/// Position of the edge `from → to` among `edges`, if any.
fn find_edge(edges: &Vec<RouteEdge>, from: u64, to: u64) -> (r: Option<usize>)
    ensures
        match r {
            Some(i) => i < edges@.len() && joins(edges@[i as int], from, to),
            None => !has_edge(edges@, from, to),
        },
{
    let mut i: usize = 0;
    while i < edges.len()
        invariant
            0 <= i <= edges@.len(),
            forall|j: int| 0 <= j < i ==> !joins(#[trigger] edges@[j], from, to),
        decreases edges@.len() - i,
    {
        if edges[i].from == from && edges[i].to == to {
            return Some(i);
        }
        i += 1;
    }
    None
}

/// Register a directed edge between two nebulae; an edge between the same
/// pair is updated in place. The hazard level is clamped at 100.
pub fn add_nebula_connection(
    g: &mut NavGraph,
    admin: &Address,
    from: u64,
    to: u64,
    fuel_cost: u32,
    hazard_level: u32,
) -> (r: Result<(), NavError>)
    ensures
        final(g).config() == old(g).config(),
        unique_pairs(final(g).edges()),
        old(g).config() is None ==> r == Err::<(), NavError>(NavError::NotInitialized)
            && final(g).edges() == old(g).edges(),
        old(g).config() is Some && from == to ==> r == Err::<(), NavError>(NavError::SameNebula)
            && final(g).edges() == old(g).edges(),
        old(g).config() is Some && from != to ==> r is Ok
            && final(g).edges() == upsert_edge(old(g).edges(), stored_edge(from, to, fuel_cost, hazard_level)),
{
    proof { use_type_invariant(&*g); }
    if g.config.is_none() {
        return Err(NavError::NotInitialized);
    }
    if from == to {
        return Err(NavError::SameNebula);
    }
    let edge = RouteEdge {
        from,
        to,
        fuel_cost,
        hazard_level: if hazard_level < 100 { hazard_level } else { 100 },
    };
    let ghost old_edges = g.edges@;
    match find_edge(&g.edges, from, to) {
        Some(i) => {
            proof {
                lemma_edge_unique(old_edges, from, to, i as int);
                assert forall|a: int, b: int|
                    0 <= a < old_edges.len() && 0 <= b < old_edges.len() && a != b
                        implies !joins(#[trigger] old_edges.update(i as int, edge)[a],
                            old_edges.update(i as int, edge)[b].from,
                            #[trigger] old_edges.update(i as int, edge)[b].to) by {
                    if a != i && b != i {
                        assert(!joins(old_edges[a], old_edges[b].from, old_edges[b].to));
                    } else if a == i {
                        assert(!joins(old_edges[i as int], old_edges[b].from, old_edges[b].to));
                    } else {
                        assert(!joins(old_edges[a], old_edges[i as int].from, old_edges[i as int].to));
                    }
                }
            }
            let mut edges: Vec<RouteEdge> = Vec::new();
            std::mem::swap(&mut edges, &mut g.edges);
            edges.set(i, edge);
            g.edges = edges;
        },
        None => {
            let mut edges: Vec<RouteEdge> = Vec::new();
            std::mem::swap(&mut edges, &mut g.edges);
            edges.push(edge);
            g.edges = edges;
        },
    }
    Ok(())
}

/// The edge list after registering each edge of `batch` in turn (before any failure).
pub open spec fn upsert_all(edges: Seq<RouteEdge>, batch: Seq<RouteEdge>) -> Seq<RouteEdge>
    decreases batch.len(),
{
    if batch.len() == 0 {
        edges
    } else {
        let e = batch.last();
        upsert_edge(
            upsert_all(edges, batch.drop_last()),
            stored_edge(e.from, e.to, e.fuel_cost, e.hazard_level),
        )
    }
}

/// Whether `batch[k]` is the first edge of the batch that loops on one nebula.
pub open spec fn first_loop(batch: Seq<RouteEdge>, k: int) -> bool {
    &&& 0 <= k < batch.len()
    &&& batch[k].from == batch[k].to
    &&& forall|j: int| 0 <= j < k ==> (#[trigger] batch[j]).from != batch[j].to
}

/// Add up to `MAX_CONNECTIONS_PER_BATCH` edges in a single call.
/// Edges before a failing one stay registered.
pub fn add_nebula_connections_batch(g: &mut NavGraph, admin: &Address, edges: Vec<RouteEdge>) -> (r: Result<u32, NavError>)
    ensures
        final(g).config() == old(g).config(),
        unique_pairs(final(g).edges()),
        edges@.len() > MAX_CONNECTIONS_PER_BATCH ==> r == Err::<u32, NavError>(NavError::BatchTooLarge)
            && final(g).edges() == old(g).edges(),
        edges@.len() <= MAX_CONNECTIONS_PER_BATCH ==> {
            if edges@.len() == 0 {
                r == Ok::<u32, NavError>(0) && final(g).edges() == old(g).edges()
            } else if old(g).config() is None {
                r == Err::<u32, NavError>(NavError::NotInitialized) && final(g).edges() == old(g).edges()
            } else if exists|k: int| first_loop(edges@, k) {
                let k = choose|k: int| first_loop(edges@, k);
                r == Err::<u32, NavError>(NavError::SameNebula)
                    && final(g).edges() == upsert_all(old(g).edges(), edges@.take(k))
            } else {
                r == Ok::<u32, NavError>(edges@.len() as u32)
                    && final(g).edges() == upsert_all(old(g).edges(), edges@)
            }
        },
{
    proof { use_type_invariant(&*g); }
    if edges.len() > MAX_CONNECTIONS_PER_BATCH as usize {
        return Err(NavError::BatchTooLarge);
    }
    let count = edges.len();
    let mut i: usize = 0;
    while i < count
        invariant
            0 <= i <= count,
            count == edges@.len(),
            count <= MAX_CONNECTIONS_PER_BATCH,
            g.config() == old(g).config(),
            g.config() is Some || i == 0,
            g.edges() == upsert_all(old(g).edges(), edges@.take(i as int)),
            forall|j: int| 0 <= j < i ==> (#[trigger] edges@[j]).from != edges@[j].to,
            unique_pairs(g.edges()),
        decreases count - i,
    {
        let e = edges[i];
        assert(edges@.take(i as int + 1).drop_last() =~= edges@.take(i as int));
        let res = add_nebula_connection(g, admin, e.from, e.to, e.fuel_cost, e.hazard_level);
        match res {
            Ok(()) => {},
            Err(err) => {
                proof {
                    if g.config() is Some {
                        assert(first_loop(edges@, i as int));
                        let k = choose|k: int| first_loop(edges@, k);
                        if k < i {
                            assert(edges@[k].from != edges@[k].to);
                        }
                        if k > i {
                            assert(edges@[i as int].from != edges@[i as int].to);
                        }
                    }
                }
                return Err(err);
            },
        }
        i += 1;
    }
    proof {
        assert(edges@.take(count as int) =~= edges@);
        assert(!exists|k: int| first_loop(edges@, k));
    }
    Ok(count as u32)
}

/// Return the edges leaving a nebula (empty if none registered).
pub fn get_neighbors(g: &NavGraph, nebula_id: u64) -> (r: Vec<RouteEdge>)
    ensures
        r@ == neighbors_of(g.edges(), nebula_id),
{
    let mut r: Vec<RouteEdge> = Vec::new();
    let mut i: usize = 0;
    proof {
        reveal(Seq::filter);
        assert(g.edges@.take(0) =~= Seq::<RouteEdge>::empty());
    }
    while i < g.edges.len()
        invariant
            0 <= i <= g.edges@.len(),
            r@ == g.edges@.take(i as int).filter(leaves(nebula_id)),
        decreases g.edges@.len() - i,
    {
        let e = g.edges[i];
        let ghost prefix = g.edges@.take(i as int + 1);
        proof {
            reveal(Seq::filter);
            assert(prefix.drop_last() =~= g.edges@.take(i as int));
            assert(prefix.last() == e);
            assert(prefix.filter(leaves(nebula_id)) == (if leaves(nebula_id)(e) { prefix.drop_last().filter(leaves(nebula_id)).push(e) } else { prefix.drop_last().filter(leaves(nebula_id)) }));
            assert(leaves(nebula_id)(e) == (e.from == nebula_id));
        }
        if e.from == nebula_id {
            r.push(e);
        }
        i += 1;
    }
    proof {
        assert(g.edges@.take(i as int) =~= g.edges@);
    }
    r
}

/// Return the single edge from `from` to `to`, if it exists.
pub fn get_connection(g: &NavGraph, from: u64, to: u64) -> (r: Option<RouteEdge>)
    ensures
        r == edge_between(g.edges(), from, to),
{
    proof { use_type_invariant(g); }
    match find_edge(&g.edges, from, to) {
        Some(i) => {
            proof { lemma_edge_unique(g.edges@, from, to, i as int); }
            Some(g.edges[i])
        },
        None => None,
    }
}

/// Average hazard across consecutive edges of `path`.
fn path_risk(g: &NavGraph, path: &Vec<u64>) -> (r: u32)
    requires
        path@.len() <= MAX_ROUTE_HOPS + 1,
    ensures
        r == path_risk_of(g.edges(), path@),
{
    proof { use_type_invariant(g); }
    if path.len() <= 1 {
        return 0;
    }
    let mut total: u32 = 0;
    let mut count: u32 = 0;
    let mut i: usize = 0;
    while i < path.len() - 1
        invariant
            path@.len() >= 2,
            path@.len() <= MAX_ROUTE_HOPS + 1,
            0 <= i <= path@.len() - 1,
            total as int == hazard_totals(g.edges(), path@, i as int).0,
            count as int == hazard_totals(g.edges(), path@, i as int).1,
            total <= 100 * i,
            count <= i,
            forall|k: int| 0 <= k < g.edges().len() ==> (#[trigger] g.edges()[k]).hazard_level <= 100,
        decreases path@.len() - 1 - i,
    {
        let from = path[i];
        let to = path[i + 1];
        match get_connection(g, from, to) {
            Some(e) => {
                proof {
                    let p = edge_pos(g.edges(), from, to);
                    assert(g.edges()[p].hazard_level <= 100);
                }
                total = total + e.hazard_level;
                count = count + 1;
            },
            None => {},
        }
        i += 1;
    }
    if count == 0 {
        0
    } else {
        total / count
    }
}

/// Validate a route and return its aggregate risk score (0–100).
pub fn validate_route_safety(g: &NavGraph, route: &Vec<u64>) -> (r: Result<u32, NavError>)
    ensures
        route@.len() == 0 ==> r == Err::<u32, NavError>(NavError::RouteEmpty),
        route@.len() > 0 && g.config() is None ==> r == Err::<u32, NavError>(NavError::NotInitialized),
        route@.len() > 0 && g.config() is Some ==> {
            if route@.len() > MAX_ROUTE_HOPS + 1 {
                r == Err::<u32, NavError>(NavError::TooManyHops)
            } else if !route_connected(g.edges(), route@) {
                r == Err::<u32, NavError>(NavError::InvalidNebula)
            } else {
                r == Ok::<u32, NavError>(path_risk_of(g.edges(), route@))
            }
        },
{
    proof { use_type_invariant(g); }
    if route.len() == 0 {
        return Err(NavError::RouteEmpty);
    }
    let cfg = match g.config {
        Some(c) => c,
        None => return Err(NavError::NotInitialized),
    };
    let max_len: usize = cfg.max_hops as usize + 1;
    if route.len() > max_len {
        return Err(NavError::TooManyHops);
    }
    let mut i: usize = 0;
    while i < route.len() - 1
        invariant
            route@.len() >= 1,
            route@.len() <= MAX_ROUTE_HOPS + 1,
            g.config() is Some,
            0 <= i <= route@.len() - 1,
            forall|k: int| 0 <= k < i ==> #[trigger] has_edge(g.edges(), route@[k], route@[k + 1]),
        decreases route@.len() - 1 - i,
    {
        if get_connection(g, route[i], route[i + 1]).is_none() {
            return Err(NavError::InvalidNebula);
        }
        i += 1;
    }
    Ok(path_risk(g, route))
}


/// Whether `p` is a route the planner may return between `start` and `dest`:
/// it starts at `start`, ends at `dest`, every consecutive pair is joined by a
/// registered edge, it has at most `MAX_ROUTE_HOPS` hops, and its fuel,
/// hop count and risk are those of its edges.
pub open spec fn is_planned_route(edges: Seq<RouteEdge>, start: u64, dest: u64, p: NavPath) -> bool {
    let hops = p.hops@;
    &&& hops.len() >= 2
    &&& hops.len() <= MAX_ROUTE_HOPS + 1
    &&& hops[0] == start
    &&& hops[hops.len() - 1] == dest
    &&& route_connected(edges, hops)
    &&& p.hop_count == hops.len() - 1
    &&& p.total_fuel == path_fuel(edges, hops, hops.len() - 1)
    &&& p.total_fuel < u32::MAX
    &&& p.risk_score == path_risk_of(edges, hops)
}

/// Whether the first `k + 1` nebulae of `w` form a route from `start` along
/// registered edges (nebulae may repeat).
pub open spec fn reaches(edges: Seq<RouteEdge>, w: Seq<u64>, start: u64, k: int) -> bool {
    &&& 0 <= k < w.len()
    &&& w[0] == start
    &&& forall|i: int| 0 <= i < k ==> #[trigger] has_edge(edges, w[i], w[i + 1])
}

/// Whether `nodes` lists, without repeats and with `start` first, every nebula
/// a route from `start` can visit: `start` and every edge target.
spec fn covers(edges: Seq<RouteEdge>, start: u64, nodes: Seq<u64>) -> bool {
    &&& nodes.len() >= 1
    &&& nodes[0] == start
    &&& nodes.no_duplicates()
    &&& forall|j: int| 0 <= j < edges.len() ==> nodes.contains(#[trigger] edges[j].to)
}

/// The cheapest fuel of a route of exactly `k` edges ending at `nodes[b]` is at
/// least `layer[b]`.
spec fn layer_complete(edges: Seq<RouteEdge>, start: u64, nodes: Seq<u64>, layer: Seq<u32>, k: int) -> bool {
    forall|b: int, w: Seq<u64>| #![trigger layer[b], path_fuel(edges, w, k)]
        0 <= b < nodes.len() && reaches(edges, w, start, k) && w[k] == nodes[b]
            ==> layer[b] <= path_fuel(edges, w, k)
}

/// Every finite entry of `cur` is the entry of `pred[b]` in `prev` extended by
/// the registered edge from `nodes[pred[b]]` to `nodes[b]`.
spec fn layer_sound(edges: Seq<RouteEdge>, nodes: Seq<u64>, prev: Seq<u32>, cur: Seq<u32>, pred: Seq<usize>) -> bool {
    forall|b: int| #![trigger cur[b]] 0 <= b < nodes.len() && cur[b] < u32::MAX ==> {
        let a = pred[b] as int;
        &&& 0 <= a < nodes.len()
        &&& prev[a] < u32::MAX
        &&& has_edge(edges, nodes[a], nodes[b])
        &&& cur[b] == sat_add(prev[a], edge_between(edges, nodes[a], nodes[b])->0.fuel_cost)
    }
}

/// The first layer: only `start` (entry 0) is reached, with no fuel.
spec fn first_layer(layer: Seq<u32>, n: int) -> bool {
    &&& layer.len() == n
    &&& layer[0] == 0
    &&& forall|b: int| 1 <= b < n ==> #[trigger] layer[b] == u32::MAX
}

/// Every nebula a route from `start` can visit, without repeats, `start` first.
fn collect_nodes(g: &NavGraph, start: u64) -> (nodes: Vec<u64>)
    ensures
        covers(g.edges(), start, nodes@),
        nodes@.len() <= g.edges().len() + 1,
{
    let mut nodes: Vec<u64> = Vec::new();
    nodes.push(start);
    let mut j: usize = 0;
    while j < g.edges.len()
        invariant
            0 <= j <= g.edges@.len(),
            nodes@.len() >= 1,
            nodes@.len() <= j + 1,
            nodes@[0] == start,
            nodes@.no_duplicates(),
            forall|jj: int| 0 <= jj < j ==> nodes@.contains(#[trigger] g.edges@[jj].to),
        decreases g.edges@.len() - j,
    {
        let to = g.edges[j].to;
        let ghost before = nodes@;
        if find_idx(&nodes, to).is_none() {
            nodes.push(to);
            proof {
                assert forall|a: int, b: int| 0 <= a < nodes@.len() && 0 <= b < nodes@.len() && a != b
                    implies nodes@[a] != nodes@[b] by {
                    if a < before.len() && b < before.len() {
                        assert(before[a] != before[b]);
                    } else if a < before.len() {
                        assert(before.contains(before[a]));
                    } else {
                        assert(before.contains(before[b]));
                    }
                }
                assert forall|jj: int| 0 <= jj <= j implies nodes@.contains(#[trigger] g.edges@[jj].to) by {
                    if jj < j {
                        let p = choose|p: int| 0 <= p < before.len() && before[p] == g.edges@[jj].to;
                        assert(nodes@[p] == g.edges@[jj].to);
                    } else {
                        assert(nodes@[before.len() as int] == to);
                    }
                }
            }
        }
        j += 1;
    }
    nodes
}

/// Extend the cheapest routes of `prev` (exactly `k - 1` edges) by one edge:
/// `cur[b]` is the cheapest `prev[a]` plus the fuel of an edge `a → b`, and
/// `pred[b]` that `a` (`u32::MAX` where no edge reaches `b`).
fn next_layer(g: &NavGraph, nodes: &Vec<u64>, prev: &Vec<u32>) -> (r: (Vec<u32>, Vec<usize>))
    requires
        prev@.len() == nodes@.len(),
        nodes@.no_duplicates(),
    ensures
        r.0@.len() == nodes@.len(),
        r.1@.len() == nodes@.len(),
        layer_sound(g.edges(), nodes@, prev@, r.0@, r.1@),
        forall|j: int, a: int, b: int| #![trigger g.edges()[j], nodes@[a], nodes@[b]]
            0 <= j < g.edges().len() && 0 <= a < nodes@.len() && 0 <= b < nodes@.len()
                && nodes@[a] == g.edges()[j].from && nodes@[b] == g.edges()[j].to
                ==> r.0@[b] <= sat_add(prev@[a], g.edges()[j].fuel_cost),
{
    proof { use_type_invariant(g); }
    let n = nodes.len();
    let mut cur: Vec<u32> = Vec::new();
    let mut pred: Vec<usize> = Vec::new();
    let mut i: usize = 0;
    while i < n
        invariant
            n == nodes@.len(),
            0 <= i <= n,
            cur@.len() == i,
            pred@.len() == i,
            forall|b: int| 0 <= b < i ==> #[trigger] cur@[b] == u32::MAX,
        decreases n - i,
    {
        cur.push(u32::MAX);
        pred.push(0);
        i += 1;
    }
    let mut j: usize = 0;
    while j < g.edges.len()
        invariant
            n == nodes@.len(),
            nodes@.no_duplicates(),
            prev@.len() == n,
            cur@.len() == n,
            pred@.len() == n,
            0 <= j <= g.edges@.len(),
            unique_pairs(g.edges()),
            layer_sound(g.edges(), nodes@, prev@, cur@, pred@),
            forall|jj: int, a: int, b: int| #![trigger g.edges()[jj], nodes@[a], nodes@[b]]
                0 <= jj < j && 0 <= a < n && 0 <= b < n
                    && nodes@[a] == g.edges()[jj].from && nodes@[b] == g.edges()[jj].to
                    ==> cur@[b] <= sat_add(prev@[a], g.edges()[jj].fuel_cost),
        decreases g.edges@.len() - j,
    {
        proof { use_type_invariant(g); }
        let e = g.edges[j];
        let ghost cur0 = cur@;
        match find_idx(nodes, e.from) {
            Some(a) => {
                match find_idx(nodes, e.to) {
                    Some(b) => {
                        if prev[a] < u32::MAX {
                            let cand = prev[a].saturating_add(e.fuel_cost);
                            if cand < cur[b] {
                                cur.set(b, cand);
                                pred.set(b, a);
                                proof {
                                    lemma_edge_unique(g.edges@, e.from, e.to, j as int);
                                }
                            }
                        }
                        proof {
                            assert forall|jj: int, aa: int, bb: int| #![trigger g.edges()[jj], nodes@[aa], nodes@[bb]]
                                0 <= jj <= j && 0 <= aa < n && 0 <= bb < n
                                    && nodes@[aa] == g.edges()[jj].from && nodes@[bb] == g.edges()[jj].to
                                    implies cur@[bb] <= sat_add(prev@[aa], g.edges()[jj].fuel_cost) by {
                                if jj == j {
                                    assert(aa == a as int) by {
                                        if aa != a as int { assert(nodes@[aa] != nodes@[a as int]); }
                                    }
                                    assert(bb == b as int) by {
                                        if bb != b as int { assert(nodes@[bb] != nodes@[b as int]); }
                                    }
                                } else {
                                    assert(cur0[bb] <= sat_add(prev@[aa], g.edges()[jj].fuel_cost));
                                }
                            }
                        }
                    },
                    None => {},
                }
            },
            None => {},
        }
        j += 1;
    }
    (cur, pred)
}

/// One layer further: the cheapest routes of `k` edges, given those of `k - 1`.
proof fn lemma_layer_complete(
    edges: Seq<RouteEdge>,
    start: u64,
    nodes: Seq<u64>,
    prev: Seq<u32>,
    cur: Seq<u32>,
    k: int,
)
    requires
        k >= 1,
        covers(edges, start, nodes),
        unique_pairs(edges),
        layer_complete(edges, start, nodes, prev, k - 1),
        forall|j: int, a: int, b: int| #![trigger edges[j], nodes[a], nodes[b]]
            0 <= j < edges.len() && 0 <= a < nodes.len() && 0 <= b < nodes.len()
                && nodes[a] == edges[j].from && nodes[b] == edges[j].to
                ==> cur[b] <= sat_add(prev[a], edges[j].fuel_cost),
    ensures
        layer_complete(edges, start, nodes, cur, k),
{
    assert forall|b: int, w: Seq<u64>| #![trigger cur[b], path_fuel(edges, w, k)]
        0 <= b < nodes.len() && reaches(edges, w, start, k) && w[k] == nodes[b]
            implies cur[b] <= path_fuel(edges, w, k) by {
        assert(reaches(edges, w, start, k - 1)) by {
            assert forall|i: int| 0 <= i < k - 1 implies #[trigger] has_edge(edges, w[i], w[i + 1]) by {
                assert(has_edge(edges, w[i], w[i + 1]));
            }
        }
        // the nebula before the last is listed
        let a: int = if k - 1 == 0 {
            0
        } else {
            assert(has_edge(edges, w[k - 2], w[(k - 2) + 1]));
            let jp = choose|jp: int| 0 <= jp < edges.len() && joins(#[trigger] edges[jp], w[k - 2], w[k - 1]);
            assert(nodes.contains(edges[jp].to));
            choose|a: int| 0 <= a < nodes.len() && nodes[a] == w[k - 1]
        };
        assert(nodes[a] == w[k - 1]);
        assert(has_edge(edges, w[k - 1], w[(k - 1) + 1]));
        let j = choose|j: int| 0 <= j < edges.len() && joins(#[trigger] edges[j], w[k - 1], w[k]);
        lemma_edge_unique(edges, w[k - 1], w[k], j);
        assert(prev[a] <= path_fuel(edges, w, k - 1));
        assert(cur[b] <= sat_add(prev[a], edges[j].fuel_cost));
    }
}

/// Along the chosen predecessors, the entry of layer `m` is the fuel of the
/// first `m` edges of the route.
proof fn lemma_fuel_along(
    edges: Seq<RouteEdge>,
    nodes: Seq<u64>,
    layers: Seq<Seq<u32>>,
    preds: Seq<Seq<usize>>,
    fix: Seq<int>,
    path: Seq<u64>,
    m: int,
)
    requires
        0 <= m < path.len(),
        path.len() == fix.len(),
        path.len() <= layers.len(),
        layers.len() == preds.len(),
        first_layer(layers[0], nodes.len() as int),
        forall|t: int| 1 <= t < layers.len() ==> layer_sound(edges, nodes, #[trigger] layers[t - 1], layers[t], preds[t]),
        forall|t: int| 0 <= t < fix.len() ==> 0 <= #[trigger] fix[t] < nodes.len() && path[t] == nodes[fix[t]]
            && layers[t][fix[t]] < u32::MAX,
        forall|t: int| 1 <= t < fix.len() ==> fix[t - 1] == #[trigger] preds[t][fix[t]] as int,
        fix[0] == 0,
    ensures
        layers[m][fix[m]] == path_fuel(edges, path, m),
    decreases m,
{
    if m > 0 {
        lemma_fuel_along(edges, nodes, layers, preds, fix, path, m - 1);
        assert(fix[m - 1] == preds[m][fix[m]] as int);
        assert(layer_sound(edges, nodes, layers[m - 1], layers[m], preds[m]));
        assert(layers[m][fix[m]] < u32::MAX);
    }
}

/// Cheapest-fuel route between two nebulae over at most `MAX_ROUTE_HOPS`
/// registered edges. For each hop count it keeps the cheapest fuel of a route
/// of exactly that many edges to every nebula, then returns the cheapest route
/// over all hop counts (the one with the fewest hops among equally cheap ones).
/// A returned route is a registered path from `start` to `dest` whose fuel,
/// hop count and risk are those of its edges; no route of at most
/// `MAX_ROUTE_HOPS` edges costs less fuel, and `NoValidRoute` comes exactly
/// when no such route costs less than `u32::MAX`.
pub fn calculate_optimal_route(g: &NavGraph, start: u64, dest: u64) -> (r: Result<NavPath, NavError>)
    ensures
        g.config() is None ==> r == Err::<NavPath, NavError>(NavError::NotInitialized),
        g.config() is Some && start == dest ==> r == Err::<NavPath, NavError>(NavError::SameNebula),
        g.config() is Some && start != dest ==> match r {
            Ok(p) => is_planned_route(g.edges(), start, dest, p),
            Err(e) => e == NavError::NoValidRoute,
        },
        g.config() is Some && start != dest ==> {
            &&& (r is Ok <==> exists|w: Seq<u64>, k: int| #[trigger] reaches(g.edges(), w, start, k)
                && k <= MAX_ROUTE_HOPS && w[k] == dest && path_fuel(g.edges(), w, k) < u32::MAX)
            &&& (r matches Ok(p) ==> forall|w: Seq<u64>, k: int| #[trigger] reaches(g.edges(), w, start, k)
                && k <= MAX_ROUTE_HOPS && w[k] == dest ==> p.total_fuel <= path_fuel(g.edges(), w, k))
        },
{
    proof { use_type_invariant(g); }
    let cfg = match g.config {
        Some(c) => c,
        None => return Err(NavError::NotInitialized),
    };
    if start == dest {
        return Err(NavError::SameNebula);
    }
    let max_hops = cfg.max_hops;
    let ghost edges = g.edges();

    let nodes = collect_nodes(g, start);
    let n = nodes.len();

    // Layer 0: only `start` is reached, with no fuel.
    let mut first: Vec<u32> = Vec::new();
    let mut first_pred: Vec<usize> = Vec::new();
    first.push(0);
    first_pred.push(0);
    let mut i: usize = 1;
    while i < n
        invariant
            n == nodes@.len(),
            1 <= i <= n,
            first@.len() == i,
            first_pred@.len() == i,
            first@[0] == 0,
            forall|b: int| 1 <= b < i ==> #[trigger] first@[b] == u32::MAX,
        decreases n - i,
    {
        first.push(u32::MAX);
        first_pred.push(0);
        i += 1;
    }
    proof {
        assert forall|b: int, w: Seq<u64>| #![trigger first@[b], path_fuel(edges, w, 0)]
            0 <= b < nodes@.len() && reaches(edges, w, start, 0) && w[0] == nodes@[b]
                implies first@[b] <= path_fuel(edges, w, 0) by {
            if b != 0 {
                assert(nodes@[b] != nodes@[0]);
            }
        }
    }
    let mut layers: Vec<Vec<u32>> = Vec::new();
    let mut preds: Vec<Vec<usize>> = Vec::new();
    layers.push(first);
    preds.push(first_pred);

    let mut k: u32 = 1;
    while k <= max_hops
        invariant
            edges == g.edges(),
            unique_pairs(edges),
            max_hops == MAX_ROUTE_HOPS,
            covers(edges, start, nodes@),
            n == nodes@.len(),
            1 <= k <= max_hops + 1,
            layers@.len() == k,
            preds@.len() == k,
            forall|t: int| 0 <= t < k ==> (#[trigger] layers@[t])@.len() == n && preds@[t]@.len() == n,
            first_layer(layers@[0]@, n as int),
            forall|t: int| 1 <= t < k ==> layer_sound(edges, nodes@, #[trigger] layers@[t - 1]@, layers@[t]@, preds@[t]@),
            forall|t: int| 0 <= t < k ==> layer_complete(edges, start, nodes@, #[trigger] layers@[t]@, t),
        decreases max_hops + 1 - k,
    {
        let (cur, pred) = next_layer(g, &nodes, &layers[(k - 1) as usize]);
        proof {
            lemma_layer_complete(edges, start, nodes@, layers@[k - 1]@, cur@, k as int);
        }
        let ghost old_layers = layers@;
        let ghost old_preds = preds@;
        layers.push(cur);
        preds.push(pred);
        proof {
            assert forall|t: int| 1 <= t < k + 1 implies layer_sound(edges, nodes@, #[trigger] layers@[t - 1]@, layers@[t]@, preds@[t]@) by {
                if t < k {
                    assert(old_layers[t - 1] == layers@[t - 1]);
                    assert(old_layers[t] == layers@[t]);
                    assert(old_preds[t] == preds@[t]);
                    assert(layer_sound(edges, nodes@, old_layers[t - 1]@, old_layers[t]@, old_preds[t]@));
                }
            }
            assert forall|t: int| 0 <= t < k + 1 implies layer_complete(edges, start, nodes@, #[trigger] layers@[t]@, t) by {
                if t < k {
                    assert(old_layers[t] == layers@[t]);
                    assert(layer_complete(edges, start, nodes@, old_layers[t]@, t));
                }
            }
        }
        k += 1;
    }

    let d = match find_idx(&nodes, dest) {
        Some(d) => d,
        None => {
            proof {
                assert forall|w: Seq<u64>, kk: int| #[trigger] reaches(g.edges(), w, start, kk)
                    && kk <= MAX_ROUTE_HOPS && w[kk] == dest implies false by {
                    if kk == 0 {
                    } else {
                        assert(has_edge(edges, w[kk - 1], w[(kk - 1) + 1]));
                        let j = choose|j: int| 0 <= j < edges.len() && joins(#[trigger] edges[j], w[kk - 1], w[kk]);
                        assert(nodes@.contains(edges[j].to));
                    }
                }
            }
            return Err(NavError::NoValidRoute);
        },
    };

    // The cheapest hop count for `dest`.
    let mut best: u32 = u32::MAX;
    let mut best_k: usize = 0;
    let mut t: usize = 1;
    while t <= max_hops as usize
        invariant
            max_hops == MAX_ROUTE_HOPS,
            layers@.len() == max_hops + 1,
            forall|u: int| 0 <= u < layers@.len() ==> (#[trigger] layers@[u])@.len() == n,
            d < n,
            1 <= t <= max_hops + 1,
            best < u32::MAX ==> 1 <= best_k < t && layers@[best_k as int]@[d as int] == best,
            forall|u: int| 1 <= u < t ==> best <= (#[trigger] layers@[u])@[d as int],
        decreases max_hops + 1 - t,
    {
        let c = layers[t][d];
        if c < best {
            best = c;
            best_k = t;
        }
        t += 1;
    }
    proof {
        assert forall|w: Seq<u64>, kk: int| #[trigger] reaches(g.edges(), w, start, kk)
            && kk <= MAX_ROUTE_HOPS && w[kk] == dest implies best <= path_fuel(g.edges(), w, kk) by {
            assert(kk != 0);
            assert(layer_complete(edges, start, nodes@, layers@[kk]@, kk));
            assert(layers@[kk]@[d as int] <= path_fuel(edges, w, kk));
        }
    }
    if best == u32::MAX {
        return Err(NavError::NoValidRoute);
    }

    // Walk the predecessors back from `dest` at layer `best_k`.
    let mut rev_path: Vec<u64> = Vec::new();
    let mut idx: usize = d;
    let mut m: usize = best_k;
    let ghost mut rix: Seq<int> = Seq::empty();
    while m > 0
        invariant
            layers@.len() == max_hops + 1,
            preds@.len() == max_hops + 1,
            max_hops == MAX_ROUTE_HOPS,
            n == nodes@.len(),
            forall|u: int| 0 <= u < layers@.len() ==> (#[trigger] layers@[u])@.len() == n && preds@[u]@.len() == n,
            forall|u: int| 1 <= u < layers@.len() ==> layer_sound(edges, nodes@, #[trigger] layers@[u - 1]@, layers@[u]@, preds@[u]@),
            1 <= best_k <= max_hops,
            0 <= m <= best_k,
            idx < n,
            layers@[m as int]@[idx as int] < u32::MAX,
            rev_path@.len() == best_k - m,
            rix.len() == best_k - m,
            forall|q: int| 0 <= q < rix.len() ==> 0 <= #[trigger] rix[q] < n && rev_path@[q] == nodes@[rix[q]]
                && layers@[best_k - q]@[rix[q]] < u32::MAX,
            forall|q: int| 0 <= q < rix.len() - 1 ==> #[trigger] rix[q + 1] == preds@[best_k - q]@[rix[q]] as int,
            rix.len() > 0 ==> idx as int == preds@[best_k - (rix.len() - 1)]@[rix[rix.len() - 1]] as int,
            rix.len() == 0 ==> idx == d,
            rix.len() > 0 ==> rix[0] == d as int,
        decreases m,
    {
        rev_path.push(nodes[idx]);
        proof {
            rix = rix.push(idx as int);
            assert(layer_sound(edges, nodes@, layers@[m - 1]@, layers@[m as int]@, preds@[m as int]@));
        }
        idx = preds[m][idx];
        m -= 1;
    }
    rev_path.push(nodes[idx]);
    proof {
        rix = rix.push(idx as int);
        // at layer 0 only `start` is reached
        if idx != 0 {
            assert(layers@[0]@[idx as int] == u32::MAX);
        }
    }

    // Reverse to get start → dest order.
    let total_nodes = rev_path.len();
    let mut path: Vec<u64> = Vec::new();
    let mut i: usize = total_nodes;
    while i > 0
        invariant
            total_nodes == rev_path@.len(),
            0 <= i <= total_nodes,
            path@.len() == total_nodes - i,
            forall|q: int| 0 <= q < path@.len() ==> path@[q] == rev_path@[total_nodes - 1 - q],
        decreases i,
    {
        path.push(rev_path[i - 1]);
        i -= 1;
    }
    let hop_count = total_nodes - 1;
    proof {
        let kk = best_k as int;
        assert(total_nodes as int == kk + 1);
        let fix = Seq::new((kk + 1) as nat, |q: int| rix[kk - q]);
        assert forall|q: int| 0 <= q < fix.len() implies 0 <= #[trigger] fix[q] < nodes@.len()
            && path@[q] == nodes@[fix[q]] && layers@[q]@[fix[q]] < u32::MAX by {
            assert(fix[q] == rix[kk - q]);
            assert(path@[q] == rev_path@[kk - q]);
            if q == 0 {
                assert(rix[kk] == 0);
                assert(layers@[0]@[0] == 0);
            }
        }
        assert forall|q: int| 1 <= q < fix.len() implies fix[q - 1] == #[trigger] preds@[q]@[fix[q]] as int by {
            assert(fix[q - 1] == rix[kk - q + 1]);
            assert(fix[q] == rix[kk - q]);
            assert(rix[(kk - q) + 1] == preds@[best_k - (kk - q)]@[rix[kk - q]] as int);
        }
        let lv = Seq::new(layers@.len(), |u: int| layers@[u]@);
        let pv = Seq::new(preds@.len(), |u: int| preds@[u]@);
        assert forall|u: int| 1 <= u < lv.len() implies layer_sound(edges, nodes@, #[trigger] lv[u - 1], lv[u], pv[u]) by {
            assert(layer_sound(edges, nodes@, layers@[u - 1]@, layers@[u]@, preds@[u]@));
        }
        lemma_fuel_along(edges, nodes@, lv, pv, fix, path@, kk);
        assert(path@[0] == start);
        assert(path@[kk] == dest) by {
            assert(rix[0] == d as int);
        }
        assert forall|q: int| 0 <= q < path@.len() - 1 implies #[trigger] has_edge(g.edges(), path@[q], path@[q + 1]) by {
            assert(layer_sound(edges, nodes@, lv[(q + 1) - 1], lv[q + 1], pv[q + 1]));
            assert(fix[q] == pv[q + 1][fix[q + 1]] as int);
        }
        assert(reaches(edges, path@, start, kk));
    }
    let risk = path_risk(g, &path);
    Ok(NavPath {
        hops: path,
        total_fuel: best,
        risk_score: risk,
        hop_count: hop_count as u32,
    })
}

/// Law of the graph: after an edge is registered, looking up its pair
/// gives exactly that edge, every other pair keeps its edge, and the reverse
/// direction gains nothing (the graph is directed).
pub proof fn lemma_registered_edge_is_found(edges: Seq<RouteEdge>, e: RouteEdge, from: u64, to: u64)
    requires
        unique_pairs(edges),
        e.from != e.to,
    ensures
        edge_between(upsert_edge(edges, e), e.from, e.to) == Some(e),
        !(from == e.from && to == e.to) ==> edge_between(upsert_edge(edges, e), from, to) == edge_between(edges, from, to),
        edge_between(upsert_edge(edges, e), e.to, e.from) == edge_between(edges, e.to, e.from),
{
    let u = upsert_edge(edges, e);
    if has_edge(edges, e.from, e.to) {
        let p = edge_pos(edges, e.from, e.to);
        assert forall|i: int, j: int|
            0 <= i < u.len() && 0 <= j < u.len() && i != j implies !joins(#[trigger] u[i], u[j].from, #[trigger] u[j].to) by {
            if i == p {
                assert(!joins(edges[j], edges[p].from, edges[p].to));
            } else if j == p {
                assert(!joins(edges[i], edges[p].from, edges[p].to));
            }
        }
    } else {
        assert forall|i: int, j: int|
            0 <= i < u.len() && 0 <= j < u.len() && i != j implies !joins(#[trigger] u[i], u[j].from, #[trigger] u[j].to) by {
            if i == edges.len() as int {
                assert(!joins(edges[j], e.from, e.to));
            } else if j == edges.len() as int {
                assert(!joins(edges[i], e.from, e.to));
            }
        }
    }
    let k = if has_edge(edges, e.from, e.to) { edge_pos(edges, e.from, e.to) } else { edges.len() as int };
    assert(u[k] == e);
    lemma_edge_unique(u, e.from, e.to, k);
    if !(from == e.from && to == e.to) {
        lemma_other_pairs_kept(edges, e, from, to);
    }
    lemma_other_pairs_kept(edges, e, e.to, e.from);
}

/// Registering an edge leaves the lookup of every other pair as it was.
proof fn lemma_other_pairs_kept(edges: Seq<RouteEdge>, e: RouteEdge, from: u64, to: u64)
    requires
        forall|i: int, j: int|
            0 <= i < edges.len() && 0 <= j < edges.len() && i != j
                ==> !joins(#[trigger] edges[i], edges[j].from, #[trigger] edges[j].to),
        !(from == e.from && to == e.to),
    ensures
        edge_between(upsert_edge(edges, e), from, to) == edge_between(edges, from, to),
{
    let u = upsert_edge(edges, e);
    if has_edge(edges, from, to) {
        let p = edge_pos(edges, from, to);
        assert(u[p] == edges[p]);
        if has_edge(u, from, to) {
            let q = edge_pos(u, from, to);
            if q < edges.len() && q != p {
                assert(u[q] == edges[q]);
                assert(!joins(edges[q], edges[p].from, edges[p].to));
            }
        }
    } else {
        if has_edge(u, from, to) {
            let q = edge_pos(u, from, to);
            if q < edges.len() {
                assert(u[q] == edges[q] || joins(u[q], e.from, e.to));
            }
        }
    }
}

/// Law of planning: every route the planner returns passes the safety
/// validation, with the same risk score.
pub proof fn lemma_planned_route_validates(edges: Seq<RouteEdge>, start: u64, dest: u64, p: NavPath)
    requires
        is_planned_route(edges, start, dest, p),
    ensures
        p.hops@.len() > 0,
        p.hops@.len() <= MAX_ROUTE_HOPS + 1,
        route_connected(edges, p.hops@),
        p.risk_score == path_risk_of(edges, p.hops@),
{
}

} // verus!
