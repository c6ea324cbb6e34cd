use stellar_nebula_nomad::navigation_planner::{
    add_nebula_connection, add_nebula_connections_batch, calculate_optimal_route, get_connection,
    get_nav_config, get_neighbors, initialize_nav_graph, validate_route_safety, NavError, NavGraph,
    RouteEdge, MAX_CONNECTIONS_PER_BATCH, MAX_ROUTE_HOPS,
};
use stellar_nebula_nomad::types::Address;

fn setup() -> (NavGraph, Address) {
    let mut g = NavGraph::new();
    let admin = Address::from_id(1);
    initialize_nav_graph(&mut g, &admin).unwrap();
    (g, admin)
}

fn build_linear_graph(g: &mut NavGraph, admin: &Address, nodes: u64) {
    for i in 0..(nodes - 1) {
        add_nebula_connection(g, admin, i, i + 1, 10, 20).unwrap();
    }
}

#[test]
fn test_init_stores_config() {
    let (g, _) = setup();
    let cfg = get_nav_config(&g).unwrap();
    assert_eq!(cfg.max_hops, MAX_ROUTE_HOPS);
}

#[test]
fn navigation_planner_test_double_init_rejected() {
    let (mut g, admin) = setup();
    let err = initialize_nav_graph(&mut g, &admin).unwrap_err();
    assert_eq!(err, NavError::AlreadyInitialized);
}

#[test]
fn test_add_and_retrieve_connection() {
    let (mut g, admin) = setup();
    add_nebula_connection(&mut g, &admin, 1, 2, 10, 20).unwrap();
    let e = get_connection(&g, 1, 2).unwrap();
    assert_eq!(e.fuel_cost, 10);
    assert_eq!(e.hazard_level, 20);
}

#[test]
fn test_same_nebula_rejected() {
    let (mut g, admin) = setup();
    let err = add_nebula_connection(&mut g, &admin, 5, 5, 10, 0).unwrap_err();
    assert_eq!(err, NavError::SameNebula);
}

#[test]
fn test_hazard_clamped_at_100() {
    let (mut g, admin) = setup();
    add_nebula_connection(&mut g, &admin, 1, 2, 5, 200).unwrap();
    assert_eq!(get_connection(&g, 1, 2).unwrap().hazard_level, 100);
}

#[test]
fn test_edge_update_in_place() {
    let (mut g, admin) = setup();
    add_nebula_connection(&mut g, &admin, 1, 2, 10, 20).unwrap();
    add_nebula_connection(&mut g, &admin, 1, 2, 99, 50).unwrap();
    let nb = get_neighbors(&g, 1);
    assert_eq!(nb.len(), 1);
    assert_eq!(nb[0].fuel_cost, 99);
}

#[test]
fn test_batch_add_connections() {
    let (mut g, admin) = setup();
    let edges = vec![
        RouteEdge { from: 1, to: 2, fuel_cost: 5, hazard_level: 10 },
        RouteEdge { from: 2, to: 3, fuel_cost: 7, hazard_level: 15 },
        RouteEdge { from: 3, to: 4, fuel_cost: 3, hazard_level: 5 },
    ];
    let count = add_nebula_connections_batch(&mut g, &admin, edges).unwrap();
    assert_eq!(count, 3);
    assert!(get_connection(&g, 1, 2).is_some());
    assert!(get_connection(&g, 2, 3).is_some());
    assert!(get_connection(&g, 3, 4).is_some());
}

#[test]
fn navigation_planner_test_batch_too_large_rejected() {
    let (mut g, admin) = setup();
    let mut edges = Vec::new();
    for i in 0..(MAX_CONNECTIONS_PER_BATCH + 1) {
        edges.push(RouteEdge { from: i as u64, to: (i + 100) as u64, fuel_cost: 1, hazard_level: 0 });
    }
    let err = add_nebula_connections_batch(&mut g, &admin, edges).unwrap_err();
    assert_eq!(err, NavError::BatchTooLarge);
}

#[test]
fn test_direct_route() {
    let (mut g, admin) = setup();
    add_nebula_connection(&mut g, &admin, 1, 2, 10, 30).unwrap();
    let path = calculate_optimal_route(&g, 1, 2).unwrap();
    assert_eq!(path.hop_count, 1);
    assert_eq!(path.total_fuel, 10);
    assert_eq!(path.hops[0], 1);
    assert_eq!(path.hops[1], 2);
}

#[test]
fn test_multi_hop_route() {
    let (mut g, admin) = setup();
    build_linear_graph(&mut g, &admin, 6);
    let path = calculate_optimal_route(&g, 0, 5).unwrap();
    assert_eq!(path.hop_count, 5);
    assert_eq!(path.total_fuel, 50);
}

#[test]
fn test_picks_cheaper_path() {
    let (mut g, admin) = setup();
    add_nebula_connection(&mut g, &admin, 1, 3, 100, 0).unwrap();
    add_nebula_connection(&mut g, &admin, 1, 2, 5, 0).unwrap();
    add_nebula_connection(&mut g, &admin, 2, 3, 5, 0).unwrap();
    let path = calculate_optimal_route(&g, 1, 3).unwrap();
    assert_eq!(path.total_fuel, 10);
    assert_eq!(path.hop_count, 2);
}

#[test]
fn test_no_valid_route_returns_error() {
    let (mut g, admin) = setup();
    add_nebula_connection(&mut g, &admin, 1, 2, 10, 0).unwrap();
    let err = calculate_optimal_route(&g, 1, 3).unwrap_err();
    assert_eq!(err, NavError::NoValidRoute);
}

#[test]
fn test_same_nebula_returns_error() {
    let (g, _) = setup();
    let err = calculate_optimal_route(&g, 5, 5).unwrap_err();
    assert_eq!(err, NavError::SameNebula);
}

#[test]
fn test_route_respects_max_hops() {
    let (mut g, admin) = setup();
    for i in 0u64..15 {
        add_nebula_connection(&mut g, &admin, i, i + 1, 1, 0).unwrap();
    }
    let err = calculate_optimal_route(&g, 0, 15).unwrap_err();
    assert_eq!(err, NavError::NoValidRoute);
}

#[test]
fn test_route_within_max_hops() {
    let (mut g, admin) = setup();
    build_linear_graph(&mut g, &admin, 13);
    let path = calculate_optimal_route(&g, 0, 12).unwrap();
    assert_eq!(path.hop_count, 12);
}

#[test]
fn test_risk_score_computed() {
    let (mut g, admin) = setup();
    add_nebula_connection(&mut g, &admin, 1, 2, 10, 40).unwrap();
    add_nebula_connection(&mut g, &admin, 2, 3, 10, 80).unwrap();
    let path = calculate_optimal_route(&g, 1, 3).unwrap();
    assert_eq!(path.risk_score, 60);
}

#[test]
fn test_path_starts_at_start_ends_at_dest() {
    let (mut g, admin) = setup();
    build_linear_graph(&mut g, &admin, 5);
    let path = calculate_optimal_route(&g, 0, 4).unwrap();
    assert_eq!(path.hops[0], 0);
    assert_eq!(path.hops[path.hop_count as usize], 4);
}

#[test]
fn test_validate_valid_route() {
    let (mut g, admin) = setup();
    add_nebula_connection(&mut g, &admin, 1, 2, 10, 30).unwrap();
    add_nebula_connection(&mut g, &admin, 2, 3, 10, 70).unwrap();
    let route = vec![1u64, 2, 3];
    let risk = validate_route_safety(&g, &route).unwrap();
    assert_eq!(risk, 50);
}

#[test]
fn test_validate_empty_route_rejected() {
    let (g, _) = setup();
    let route: Vec<u64> = Vec::new();
    let err = validate_route_safety(&g, &route).unwrap_err();
    assert_eq!(err, NavError::RouteEmpty);
}

#[test]
fn test_validate_too_long_route_rejected() {
    let (mut g, admin) = setup();
    build_linear_graph(&mut g, &admin, 15);
    let route: Vec<u64> = (0u64..15).collect();
    let err = validate_route_safety(&g, &route).unwrap_err();
    assert_eq!(err, NavError::TooManyHops);
}

#[test]
fn test_validate_missing_edge_rejected() {
    let (mut g, admin) = setup();
    add_nebula_connection(&mut g, &admin, 1, 2, 10, 0).unwrap();
    let route = vec![1u64, 2, 99];
    let err = validate_route_safety(&g, &route).unwrap_err();
    assert_eq!(err, NavError::InvalidNebula);
}

#[test]
fn test_validate_single_node_route() {
    let (g, _) = setup();
    let route = vec![42u64];
    let risk = validate_route_safety(&g, &route).unwrap();
    assert_eq!(risk, 0);
}

#[test]
fn test_get_neighbors_empty_for_unknown_node() {
    let (g, _) = setup();
    let nb = get_neighbors(&g, 9999);
    assert_eq!(nb.len(), 0);
}

#[test]
fn test_multiple_neighbors() {
    let (mut g, admin) = setup();
    add_nebula_connection(&mut g, &admin, 1, 2, 5, 10).unwrap();
    add_nebula_connection(&mut g, &admin, 1, 3, 8, 20).unwrap();
    add_nebula_connection(&mut g, &admin, 1, 4, 12, 30).unwrap();
    assert_eq!(get_neighbors(&g, 1).len(), 3);
}

#[test]
fn test_directed_graph_no_reverse_edge() {
    let (mut g, admin) = setup();
    add_nebula_connection(&mut g, &admin, 1, 2, 10, 0).unwrap();
    let err = calculate_optimal_route(&g, 2, 1).unwrap_err();
    assert_eq!(err, NavError::NoValidRoute);
}

#[test]
fn uninitialised_graph_refuses_edges_and_routes() {
    let mut g = NavGraph::new();
    let admin = Address::from_id(1);
    assert_eq!(add_nebula_connection(&mut g, &admin, 1, 2, 1, 1).unwrap_err(), NavError::NotInitialized);
    assert_eq!(calculate_optimal_route(&g, 1, 2).unwrap_err(), NavError::NotInitialized);
    assert_eq!(validate_route_safety(&g, &vec![1u64]).unwrap_err(), NavError::NotInitialized);
}

#[test]
fn registered_edge_read_back_and_reverse_absent() {
    let (mut g, admin) = setup();
    add_nebula_connection(&mut g, &admin, 7, 8, 3, 150).unwrap();
    let e = get_connection(&g, 7, 8).unwrap();
    assert_eq!(e, RouteEdge { from: 7, to: 8, fuel_cost: 3, hazard_level: 100 });
    assert!(get_connection(&g, 8, 7).is_none());
}

#[test]
fn planned_route_passes_validation() {
    let (mut g, admin) = setup();
    add_nebula_connection(&mut g, &admin, 1, 2, 4, 10).unwrap();
    add_nebula_connection(&mut g, &admin, 2, 3, 4, 30).unwrap();
    add_nebula_connection(&mut g, &admin, 1, 3, 20, 90).unwrap();
    let path = calculate_optimal_route(&g, 1, 3).unwrap();
    assert_eq!(path.hops, vec![1, 2, 3]);
    assert_eq!(validate_route_safety(&g, &path.hops).unwrap(), path.risk_score);
    assert_eq!(path.risk_score, 20);
}

#[test]
fn batch_with_loop_stops_at_it() {
    let (mut g, admin) = setup();
    let edges = vec![
        RouteEdge { from: 1, to: 2, fuel_cost: 5, hazard_level: 10 },
        RouteEdge { from: 3, to: 3, fuel_cost: 7, hazard_level: 15 },
        RouteEdge { from: 4, to: 5, fuel_cost: 3, hazard_level: 5 },
    ];
    assert_eq!(add_nebula_connections_batch(&mut g, &admin, edges).unwrap_err(), NavError::SameNebula);
    assert!(get_connection(&g, 1, 2).is_some());
    assert!(get_connection(&g, 4, 5).is_none());
}

#[test]
fn test_cheapest_route_over_several_alternatives() {
    let (mut g, admin) = setup();
    add_nebula_connection(&mut g, &admin, 1, 2, 4, 10).unwrap();
    add_nebula_connection(&mut g, &admin, 1, 3, 1, 50).unwrap();
    add_nebula_connection(&mut g, &admin, 3, 2, 1, 30).unwrap();
    add_nebula_connection(&mut g, &admin, 2, 4, 2, 0).unwrap();
    add_nebula_connection(&mut g, &admin, 3, 4, 7, 0).unwrap();
    let path = calculate_optimal_route(&g, 1, 4).unwrap();
    assert_eq!(path.hops, vec![1, 3, 2, 4]);
    assert_eq!(path.total_fuel, 4);
    assert_eq!(path.risk_score, 26);
}

#[test]
fn test_cheap_deep_prefix_does_not_hide_route() {
    // The cheapest way to nebula 100 takes all twelve hops, yet the two-hop
    // route 0 -> 100 -> 200 is found, as the cheapest within the hop limit.
    let (mut g, admin) = setup();
    for i in 0u64..11 {
        add_nebula_connection(&mut g, &admin, i, i + 1, 1, 0).unwrap();
    }
    add_nebula_connection(&mut g, &admin, 11, 100, 1, 0).unwrap();
    add_nebula_connection(&mut g, &admin, 0, 100, 50, 0).unwrap();
    add_nebula_connection(&mut g, &admin, 100, 200, 1, 0).unwrap();
    let path = calculate_optimal_route(&g, 0, 200).unwrap();
    assert_eq!(path.hops, vec![0, 100, 200]);
    assert_eq!(path.total_fuel, 51);
    assert_eq!(path.hop_count, 2);
}

#[test]
fn test_cheaper_longer_route_within_limit_preferred() {
    let (mut g, admin) = setup();
    for i in 0u64..12 {
        add_nebula_connection(&mut g, &admin, i, i + 1, 1, 0).unwrap();
    }
    add_nebula_connection(&mut g, &admin, 0, 12, 20, 0).unwrap();
    let path = calculate_optimal_route(&g, 0, 12).unwrap();
    assert_eq!(path.hop_count, 12);
    assert_eq!(path.total_fuel, 12);
}
