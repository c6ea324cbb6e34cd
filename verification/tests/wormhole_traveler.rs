use stellar_nebula_nomad::types::Address;
use stellar_nebula_nomad::wormhole_traveler::{
    calculate_travel_cost, cleanup_expired_wormholes, get_active_wormholes, get_travel_history,
    get_wormhole, open_wormhole, traverse_wormhole, verify_wormhole_link, WormholeError, WormholeStore,
    MAX_SIMULTANEOUS_WORMHOLES, WORMHOLE_LIFETIME_SECS,
};

const SHIP_ENERGY: u32 = 1_000;

#[test]
fn test_open_wormhole_success() {
    let mut store = WormholeStore::new();
    let creator = Address::from_id(1);
    let origin_nebula = 100u64;
    let destination = 200u64;
    let wormhole_id = open_wormhole(&mut store, creator, origin_nebula, destination, 0, 0).unwrap();
    assert_eq!(wormhole_id, 0);
    let wormhole = get_wormhole(&store, wormhole_id).unwrap();
    assert_eq!(wormhole.wormhole_id, wormhole_id);
    assert_eq!(wormhole.origin_nebula, origin_nebula);
    assert_eq!(wormhole.destination, destination);
    assert_eq!(wormhole.creator, creator);
    assert!(wormhole.is_active);
    assert!(wormhole.travel_cost > 0);
    let active_wormholes = get_active_wormholes(&store);
    assert_eq!(active_wormholes.len(), 1);
    assert_eq!(active_wormholes[0], wormhole_id);
    assert_eq!(wormhole.wormhole_id, wormhole_id);
    assert_eq!(wormhole.origin_nebula, origin_nebula);
    assert_eq!(wormhole.destination, destination);
    assert_eq!(wormhole.creator, creator);
    assert!(wormhole.is_active);
    let active_wormholes = get_active_wormholes(&store);
    assert_eq!(active_wormholes.len(), 1);
    assert_eq!(active_wormholes[0], wormhole_id);
}

#[test]
fn test_open_wormhole_same_nebula_error() {
    let mut store = WormholeStore::new();
    let creator = Address::from_id(1);
    let nebula_id = 100u64;
    let wormhole_id = open_wormhole(&mut store, creator, nebula_id, nebula_id, 0, 0);
    assert_eq!(wormhole_id.unwrap_err(), WormholeError::SameNebulaTravel);
}

#[test]
fn test_open_wormhole_max_limit() {
    let mut store = WormholeStore::new();
    let creator = Address::from_id(1);
    for i in 0..MAX_SIMULTANEOUS_WORMHOLES {
        let wormhole_id = open_wormhole(&mut store, creator, i as u64, (i + 100) as u64, 0, 0);
        assert!(wormhole_id.is_ok());
    }
    let wormhole_id = open_wormhole(&mut store, creator, 1000, 1100, 0, 0);
    assert_eq!(wormhole_id.unwrap_err(), WormholeError::MaxWormholesReached);
}

#[test]
fn test_traverse_wormhole_success() {
    let mut store = WormholeStore::new();
    let creator = Address::from_id(1);
    let traveler = Address::from_id(2);
    let ship_id = 7u64;
    let origin_nebula = 100u64;
    let destination = 200u64;
    let wormhole_id = open_wormhole(&mut store, creator, origin_nebula, destination, 0, 0).unwrap();
    let travel_record =
        traverse_wormhole(&mut store, traveler, ship_id, wormhole_id, 0, Some(traveler), &mut Some(SHIP_ENERGY)).unwrap();
    assert_eq!(travel_record.ship_id, ship_id);
    assert_eq!(travel_record.wormhole_id, wormhole_id);
    assert_eq!(travel_record.origin_nebula, origin_nebula);
    assert_eq!(travel_record.destination, destination);
    assert!(travel_record.energy_consumed > 0);
    let travel_history = get_travel_history(&store, ship_id);
    assert_eq!(travel_history.len(), 1);
    assert_eq!(travel_history[0].wormhole_id, wormhole_id);
}

#[test]
fn test_traverse_wormhole_insufficient_energy() {
    let mut store = WormholeStore::new();
    let creator = Address::from_id(1);
    let traveler = Address::from_id(2);
    let wormhole_id = open_wormhole(&mut store, creator, 100u64, 10000u64, 0, 0).unwrap();
    let result = traverse_wormhole(&mut store, traveler, 7, wormhole_id, 0, Some(traveler), &mut Some(SHIP_ENERGY));
    assert_eq!(result.unwrap_err(), WormholeError::InsufficientEnergy);
}

#[test]
fn test_traverse_wormhole_unauthorized() {
    let mut store = WormholeStore::new();
    let creator = Address::from_id(1);
    let ship_owner = Address::from_id(2);
    let unauthorized_traveler = Address::from_id(3);
    let wormhole_id = open_wormhole(&mut store, creator, 100u64, 200u64, 0, 0).unwrap();
    let result =
        traverse_wormhole(&mut store, unauthorized_traveler, 7, wormhole_id, 0, Some(ship_owner), &mut Some(SHIP_ENERGY));
    assert_eq!(result.unwrap_err(), WormholeError::UnauthorizedTravel);
}

#[test]
fn test_traverse_wormhole_not_found() {
    let mut store = WormholeStore::new();
    let traveler = Address::from_id(2);
    let result = traverse_wormhole(&mut store, traveler, 7, 999, 0, Some(traveler), &mut Some(SHIP_ENERGY));
    assert_eq!(result.unwrap_err(), WormholeError::WormholeNotFound);
}

#[test]
fn test_calculate_travel_cost() {
    assert_eq!(calculate_travel_cost(100, 100), 0);
    let cost = calculate_travel_cost(100, 200);
    assert!(cost > 0);
    let cost_close = calculate_travel_cost(100, 150);
    let cost_far = calculate_travel_cost(100, 500);
    assert!(cost_far > cost_close);
}

#[test]
fn test_verify_wormhole_link() {
    let mut store = WormholeStore::new();
    let creator = Address::from_id(1);
    let wormhole_id = open_wormhole(&mut store, creator, 100u64, 200u64, 0, 0).unwrap();
    let wormhole = get_wormhole(&store, wormhole_id).unwrap();
    assert!(verify_wormhole_link(&store, wormhole_id, &wormhole.verifiable_link));
    let fake_link = [255u8; 32];
    assert!(!verify_wormhole_link(&store, wormhole_id, &fake_link));
    assert!(!verify_wormhole_link(&store, 999, &wormhole.verifiable_link));
}

#[test]
fn test_cleanup_expired_wormholes() {
    let mut store = WormholeStore::new();
    let creator = Address::from_id(1);
    let wormhole1 = open_wormhole(&mut store, creator, 100, 200, 0, 0).unwrap();
    let wormhole2 = open_wormhole(&mut store, creator, 300, 400, 0, 0).unwrap();
    let active = get_active_wormholes(&store);
    assert_eq!(active.len(), 2);
    let now = WORMHOLE_LIFETIME_SECS + 100;
    let cleaned_count = cleanup_expired_wormholes(&mut store, now);
    assert_eq!(cleaned_count, 2);
    let active = get_active_wormholes(&store);
    assert_eq!(active.len(), 0);
    let w1 = get_wormhole(&store, wormhole1).unwrap();
    let w2 = get_wormhole(&store, wormhole2).unwrap();
    assert!(!w1.is_active);
    assert!(!w2.is_active);
}

#[test]
fn test_travel_history_limit() {
    let mut store = WormholeStore::new();
    let creator = Address::from_id(1);
    let traveler = Address::from_id(2);
    let ship_id = 7u64;
    let mut now: u64 = 0;
    for i in 0..150 {
        let wormhole_id = open_wormhole(&mut store, creator, i as u64, (i + 100) as u64, 0, now).unwrap();
        now += 1;
        let _ = traverse_wormhole(&mut store, traveler, ship_id, wormhole_id, now, Some(traveler), &mut Some(SHIP_ENERGY))
            .unwrap();
        // At most five wormholes stay open at once: close this one before the next.
        cleanup_expired_wormholes(&mut store, now + WORMHOLE_LIFETIME_SECS + 1);
    }
    let travel_history = get_travel_history(&store, ship_id);
    assert_eq!(travel_history.len(), 100);
    let last_record = travel_history[99];
    assert_eq!(last_record.wormhole_id, 149);
}

#[test]
fn test_wormhole_verifiable_link_uniqueness() {
    let mut store = WormholeStore::new();
    let creator = Address::from_id(1);
    let wormhole1 = open_wormhole(&mut store, creator, 100u64, 200u64, 0, 0).unwrap();
    let wormhole2 = open_wormhole(&mut store, creator, 100u64, 200u64, 0, 10).unwrap();
    let w1 = get_wormhole(&store, wormhole1).unwrap();
    let w2 = get_wormhole(&store, wormhole2).unwrap();
    assert_ne!(w1.verifiable_link, w2.verifiable_link);
}

#[test]
fn test_multi_nebula_journey_simulation() {
    let mut store = WormholeStore::new();
    let creator = Address::from_id(1);
    let traveler = Address::from_id(2);
    let ship_id = 7u64;
    let nebulae = vec![100u64, 200, 300, 400, 500];
    let mut wormholes = Vec::new();
    for i in 0..nebulae.len() - 1 {
        let wormhole_id = open_wormhole(&mut store, creator, nebulae[i], nebulae[i + 1], 0, 0).unwrap();
        wormholes.push(wormhole_id);
    }
    let mut now: u64 = 0;
    for (i, wormhole_id) in wormholes.iter().enumerate() {
        now += i as u64 + 1;
        let travel_record =
            traverse_wormhole(&mut store, traveler, ship_id, *wormhole_id, now, Some(traveler), &mut Some(SHIP_ENERGY)).unwrap();
        assert_eq!(travel_record.origin_nebula, nebulae[i]);
        assert_eq!(travel_record.destination, nebulae[i + 1]);
    }
    let travel_history = get_travel_history(&store, ship_id);
    assert_eq!(travel_history.len(), nebulae.len() - 1);
    for (i, record) in travel_history.iter().enumerate() {
        assert_eq!(record.origin_nebula, nebulae[i]);
        assert_eq!(record.destination, nebulae[i + 1]);
    }
}

#[test]
fn wormhole_link_and_cost_are_exact() {
    let mut store = WormholeStore::new();
    let creator = Address::from_id(1);
    let id = open_wormhole(&mut store, creator, 0x0102, 0x0304, 0x0A0B0C0D, 0x1122).unwrap();
    let w = get_wormhole(&store, id).unwrap();
    let mut expected = [0u8; 32];
    expected[0..8].copy_from_slice(&0x0102u64.to_be_bytes());
    expected[8..16].copy_from_slice(&0x0304u64.to_be_bytes());
    expected[16..20].copy_from_slice(&0x0A0B0C0Du32.to_be_bytes());
    expected[24..32].copy_from_slice(&0x1122u64.to_be_bytes());
    assert_eq!(w.verifiable_link, expected);
    assert_eq!(w.travel_cost, 50 + 2 * (0x0304 - 0x0102));
    assert_eq!(w.expires_at, 0x1122 + 3600);
    assert_eq!(calculate_travel_cost(500, 100), 850);
}

#[test]
fn wormhole_traverse_errors_in_order() {
    let mut store = WormholeStore::new();
    let creator = Address::from_id(1);
    let t = Address::from_id(2);
    let id = open_wormhole(&mut store, creator, 1, 2, 0, 0).unwrap();
    assert_eq!(traverse_wormhole(&mut store, t, 7, id, 3601, Some(t), &mut Some(SHIP_ENERGY)).unwrap_err(), WormholeError::WormholeExpired);
    assert_eq!(traverse_wormhole(&mut store, t, 7, id, 3600, None, &mut Some(SHIP_ENERGY)).unwrap_err(), WormholeError::ShipNotFound);
    assert_eq!(traverse_wormhole(&mut store, t, 7, id, 3600, Some(t), &mut None).unwrap_err(), WormholeError::EnergyManagerError);
    assert_eq!(traverse_wormhole(&mut store, t, 7, id, 3600, Some(t), &mut Some(51)).unwrap_err(), WormholeError::InsufficientEnergy);
    assert_eq!(traverse_wormhole(&mut store, t, 7, id, 3600, Some(t), &mut Some(52)).unwrap().energy_consumed, 52);
    assert_eq!(cleanup_expired_wormholes(&mut store, 3601), 1);
    assert_eq!(traverse_wormhole(&mut store, t, 7, id, 0, Some(t), &mut Some(SHIP_ENERGY)).unwrap_err(), WormholeError::WormholeClosed);
    assert_eq!(cleanup_expired_wormholes(&mut store, 3601), 0);
}

#[test]
fn wormhole_traversal_deducts_travel_cost() {
    let mut store = WormholeStore::new();
    let creator = Address::from_id(1);
    let t = Address::from_id(2);
    let id = open_wormhole(&mut store, creator, 1, 2, 0, 0).unwrap();
    let mut energy = Some(100u32);
    assert_eq!(traverse_wormhole(&mut store, t, 7, id, 10, Some(Address::from_id(3)), &mut energy).unwrap_err(), WormholeError::UnauthorizedTravel);
    assert_eq!(energy, Some(100));
    let rec = traverse_wormhole(&mut store, t, 7, id, 10, Some(t), &mut energy).unwrap();
    assert_eq!(rec.energy_consumed, 52);
    assert_eq!(energy, Some(48));
    assert_eq!(traverse_wormhole(&mut store, t, 7, id, 11, Some(t), &mut energy).unwrap_err(), WormholeError::InsufficientEnergy);
    assert_eq!(energy, Some(48));
}

#[test]
fn wormhole_ids_count_up() {
    let mut store = WormholeStore::new();
    assert_eq!(store.next_wormhole_id(), 0);
    let id = open_wormhole(&mut store, Address::from_id(1), 1, 2, 0, 0).unwrap();
    assert_eq!(id, 0);
    assert_eq!(store.next_wormhole_id(), 1);
}
