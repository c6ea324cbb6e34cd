use stellar_nebula_nomad::constellation_mapper::{
    get_constellation, get_constellation_count, match_constellation, match_constellations_batch,
    record_constellation, ConstellationError, ConstellationStore,
};
use stellar_nebula_nomad::entanglement_comms::{
    create_entanglement_pair, dissolve_pair, get_message_count, send_entangled_message,
    send_entangled_message_batch, EntanglementError, EntanglementStore,
};
use stellar_nebula_nomad::portal_registry::{
    initialize_portal_registry, query_portal_status, refresh_portal, register_portal,
    register_portal_batch, travel_cost, travel_through_portal, PortalError, PortalStore,
};
use stellar_nebula_nomad::prize_distributor::{
    distribute_weekly_prizes, fund_prize_pool, get_last_reset, get_prize_pool, get_total_distributed,
    initialize_prize_distributor, prize_share, submit_leaderboard_snapshot, PrizeError, PrizeStore,
};
use stellar_nebula_nomad::types::Address;

// ─── Prize distributor ───────────────────────────────────────────────────────

#[test]
fn test_prize_fund_and_pool_balance() {
    let mut store = PrizeStore::new();
    let admin = Address::from_id(1);
    initialize_prize_distributor(&mut store, 0, &admin);
    assert_eq!(get_prize_pool(&store), 0i128);
    let sponsor = Address::from_id(2);
    let new_balance = fund_prize_pool(&mut store, &sponsor, 1_000i128).unwrap();
    assert_eq!(new_balance, 1_000i128);
    assert_eq!(get_prize_pool(&store), 1_000i128);
}

#[test]
fn test_prize_fund_invalid_amount_panics() {
    let mut store = PrizeStore::new();
    let admin = Address::from_id(1);
    initialize_prize_distributor(&mut store, 0, &admin);
    let result = fund_prize_pool(&mut store, &admin, 0i128);
    assert!(result.is_err());
}

#[test]
fn test_prize_weekly_cycle() {
    let mut store = PrizeStore::new();
    let admin = Address::from_id(1);
    initialize_prize_distributor(&mut store, 0, &admin);
    fund_prize_pool(&mut store, &admin, 1_000i128).unwrap();
    let winners = vec![Address::from_id(11), Address::from_id(12), Address::from_id(13)];
    let snapshot_size = submit_leaderboard_snapshot(&mut store, &admin, &winners).unwrap();
    assert_eq!(snapshot_size, 3u32);
    let records = distribute_weekly_prizes(&mut store, 0, &admin, 3u32).unwrap();
    assert_eq!(records.len(), 3);
    let remaining = get_prize_pool(&store);
    assert!(remaining < 10i128, "pool={remaining}");
    let total = get_total_distributed(&store);
    assert!(total >= 990i128, "total={total}");
}

#[test]
fn test_prize_insufficient_pool_panics() {
    let mut store = PrizeStore::new();
    let admin = Address::from_id(1);
    initialize_prize_distributor(&mut store, 0, &admin);
    let winners = vec![Address::from_id(11)];
    submit_leaderboard_snapshot(&mut store, &admin, &winners).unwrap();
    let result = distribute_weekly_prizes(&mut store, 0, &admin, 1u32);
    assert!(result.is_err());
}

#[test]
fn test_prize_no_snapshot_panics() {
    let mut store = PrizeStore::new();
    let admin = Address::from_id(1);
    initialize_prize_distributor(&mut store, 0, &admin);
    fund_prize_pool(&mut store, &admin, 1_000i128).unwrap();
    let result = distribute_weekly_prizes(&mut store, 0, &admin, 1u32);
    assert!(result.is_err());
}

#[test]
fn prize_shares_are_exact_and_descending() {
    // weights 3,2,1 of 6: 1000*3/6 = 500, 1000*2/6 = 333, 1000*1/6 = 166
    assert_eq!(prize_share(1_000, 1, 3), 500);
    assert_eq!(prize_share(1_000, 2, 3), 333);
    assert_eq!(prize_share(1_000, 3, 3), 166);
    let mut store = PrizeStore::new();
    let admin = Address::from_id(1);
    initialize_prize_distributor(&mut store, 0, &admin);
    fund_prize_pool(&mut store, &admin, 1_000).unwrap();
    submit_leaderboard_snapshot(&mut store, &admin, &vec![Address::from_id(7), Address::from_id(8), Address::from_id(9)]).unwrap();
    let records = distribute_weekly_prizes(&mut store, 604_800, &admin, 10).unwrap();
    let amounts: Vec<i128> = records.iter().map(|r| r.amount).collect();
    assert_eq!(amounts, vec![500, 333, 166]);
    assert_eq!(records[1].winner, Address::from_id(8));
    assert_eq!(records[2].rank, 3);
    assert_eq!(get_prize_pool(&store), 1);
    assert_eq!(get_total_distributed(&store), 999);
    assert_eq!(get_last_reset(&store), 604_800);
    // The snapshot is cleared: a second distribution finds none.
    assert_eq!(distribute_weekly_prizes(&mut store, 604_801, &admin, 3).unwrap_err(), PrizeError::NoSnapshot);
}

#[test]
fn prize_errors_in_order() {
    let mut store = PrizeStore::new();
    let admin = Address::from_id(1);
    let other = Address::from_id(2);
    assert_eq!(distribute_weekly_prizes(&mut store, 0, &admin, 1).unwrap_err(), PrizeError::NotAuthorized);
    initialize_prize_distributor(&mut store, 0, &admin);
    assert_eq!(distribute_weekly_prizes(&mut store, 0, &other, 1).unwrap_err(), PrizeError::NotAuthorized);
    assert_eq!(distribute_weekly_prizes(&mut store, 0, &admin, 0).unwrap_err(), PrizeError::TooManyPositions);
    assert_eq!(distribute_weekly_prizes(&mut store, 0, &admin, 51).unwrap_err(), PrizeError::TooManyPositions);
    assert_eq!(submit_leaderboard_snapshot(&mut store, &other, &vec![other]).unwrap_err(), PrizeError::NotAuthorized);
    assert_eq!(fund_prize_pool(&mut store, &other, -5).unwrap_err(), PrizeError::InvalidAmount);
}

// ─── Portal registry ─────────────────────────────────────────────────────────

#[test]
fn test_portal_register_and_query() {
    let mut store = PortalStore::new();
    let admin = Address::from_id(1);
    initialize_portal_registry(&mut store, &admin);
    let owner = Address::from_id(2);
    let portal_id = register_portal(&mut store, &owner, 1u64, 2u64, 0).unwrap();
    assert_eq!(portal_id, 0u64);
    let (stability, cost) = query_portal_status(&store, portal_id, 0).unwrap();
    assert_eq!(stability, 100u32);
    assert_eq!(cost, 100i128);
}

#[test]
fn test_portal_decay_reduces_stability() {
    let mut store = PortalStore::new();
    initialize_portal_registry(&mut store, &Address::from_id(1));
    let owner = Address::from_id(2);
    let portal_id = register_portal(&mut store, &owner, 10u64, 20u64, 0).unwrap();
    let (stability, _cost) = query_portal_status(&store, portal_id, 5 * 86_400).unwrap();
    assert_eq!(stability, 90u32);
}

#[test]
fn test_portal_unstable_travel_panics() {
    let mut store = PortalStore::new();
    initialize_portal_registry(&mut store, &Address::from_id(1));
    let owner = Address::from_id(2);
    let portal_id = register_portal(&mut store, &owner, 5u64, 6u64, 0).unwrap();
    let result = travel_through_portal(&store, portal_id, 50 * 86_400);
    assert!(result.is_err());
}

#[test]
fn test_portal_refresh_restores_stability() {
    let mut store = PortalStore::new();
    initialize_portal_registry(&mut store, &Address::from_id(1));
    let owner = Address::from_id(2);
    let portal_id = register_portal(&mut store, &owner, 7u64, 8u64, 0).unwrap();
    let now = 20 * 86_400;
    let (stability_before, _) = query_portal_status(&store, portal_id, now).unwrap();
    assert_eq!(stability_before, 60u32);
    refresh_portal(&mut store, &owner, portal_id, now).unwrap();
    let (stability_after, _) = query_portal_status(&store, portal_id, now).unwrap();
    assert_eq!(stability_after, 100u32);
}

#[test]
fn test_portal_same_nebula_panics() {
    let mut store = PortalStore::new();
    initialize_portal_registry(&mut store, &Address::from_id(1));
    let owner = Address::from_id(2);
    let result = register_portal(&mut store, &owner, 42u64, 42u64, 0);
    assert!(result.is_err());
}

#[test]
fn portal_costs_and_errors() {
    assert_eq!(travel_cost(0), i128::MAX);
    assert_eq!(travel_cost(100), 100);
    assert_eq!(travel_cost(30), 333);
    assert_eq!(travel_cost(10), 1_000);
    let mut store = PortalStore::new();
    let owner = Address::from_id(2);
    let id = register_portal(&mut store, &owner, 1, 2, 0).unwrap();
    // 45 days: stability 10, travel still allowed at 1000.
    assert_eq!(travel_through_portal(&store, id, 45 * 86_400).unwrap(), 1_000);
    assert_eq!(travel_through_portal(&store, id, 46 * 86_400).unwrap_err(), PortalError::PortalUnstable);
    assert_eq!(travel_through_portal(&store, 99, 0).unwrap_err(), PortalError::PortalNotFound);
    assert_eq!(refresh_portal(&mut store, &Address::from_id(3), id, 0).unwrap_err(), PortalError::NotAuthorized);
    // 60 days: stability floors at zero and the cost at the largest value.
    assert_eq!(query_portal_status(&store, id, 60 * 86_400).unwrap(), (0, i128::MAX));
}

#[test]
fn portal_batch_is_all_or_nothing() {
    let mut store = PortalStore::new();
    let owner = Address::from_id(2);
    let ids = register_portal_batch(&mut store, &owner, &vec![(1, 2), (3, 4)], 0).unwrap();
    assert_eq!(ids, vec![0, 1]);
    assert_eq!(register_portal_batch(&mut store, &owner, &vec![(5, 6), (7, 7)], 0).unwrap_err(), PortalError::SameNebula);
    assert_eq!(register_portal(&mut store, &owner, 8, 9, 0).unwrap(), 2);
    let nine: Vec<(u64, u64)> = (0..9).map(|i| (i, i + 1)).collect();
    assert_eq!(register_portal_batch(&mut store, &owner, &nine, 0).unwrap_err(), PortalError::BatchTooLarge);
}

// ─── Constellation mapper ────────────────────────────────────────────────────

fn make_star(val: u8) -> [u8; 32] {
    [val; 32]
}

#[test]
fn test_constellation_record_and_count() {
    let mut store = ConstellationStore::new();
    let user = Address::from_id(1);
    let stars = vec![make_star(1), make_star(2), make_star(3)];
    let id = record_constellation(&mut store, &user, &stars, 0).unwrap();
    assert_eq!(id, 0u64);
    assert_eq!(get_constellation_count(&store), 1u64);
}

#[test]
fn test_constellation_too_few_stars_panics() {
    let mut store = ConstellationStore::new();
    let user = Address::from_id(1);
    let stars = vec![make_star(1), make_star(2)];
    let result = record_constellation(&mut store, &user, &stars, 0);
    assert!(result.is_err());
}

#[test]
fn test_constellation_match_finds_best() {
    let mut store = ConstellationStore::new();
    let user = Address::from_id(1);
    let a = vec![make_star(1), make_star(2), make_star(3)];
    let id_a = record_constellation(&mut store, &user, &a, 0).unwrap();
    let b = vec![make_star(4), make_star(5), make_star(6)];
    record_constellation(&mut store, &user, &b, 0).unwrap();
    let observed = vec![make_star(1), make_star(2), make_star(3), make_star(7)];
    let result = match_constellation(&store, &observed).unwrap();
    assert_eq!(result.constellation_id, id_a);
    assert_eq!(result.matched_stars, 3u32);
}

#[test]
fn test_constellation_no_match_panics() {
    let store = ConstellationStore::new();
    let observed = vec![make_star(10), make_star(11), make_star(12)];
    let result = match_constellation(&store, &observed);
    assert!(result.is_err());
}

#[test]
fn constellation_matching_details() {
    let mut store = ConstellationStore::new();
    let user = Address::from_id(1);
    record_constellation(&mut store, &user, &vec![make_star(1), make_star(2), make_star(3)], 5).unwrap();
    record_constellation(&mut store, &user, &vec![make_star(2), make_star(3), make_star(4), make_star(5)], 6).unwrap();
    // Tie on two stars: the earlier constellation wins.
    let m = match_constellation(&store, &vec![make_star(2), make_star(3), make_star(9)]).unwrap();
    assert_eq!((m.constellation_id, m.matched_stars, m.total_stars), (0, 2, 3));
    // Repeated observed stars count each time.
    let m = match_constellation(&store, &vec![make_star(4), make_star(4), make_star(5)]).unwrap();
    assert_eq!((m.constellation_id, m.matched_stars, m.total_stars), (1, 3, 4));
    assert_eq!(match_constellation(&store, &vec![make_star(8), make_star(9)]).unwrap_err(), ConstellationError::TooFewStars);
    assert_eq!(match_constellation(&store, &vec![make_star(8), make_star(9), make_star(10)]).unwrap_err(), ConstellationError::NoMatchFound);
    let c = get_constellation(&store, 1).unwrap();
    assert_eq!(c.star_count, 4);
    assert_eq!(c.recorded_at, 6);
    assert_eq!(get_constellation(&store, 2).unwrap_err(), ConstellationError::NoMatchFound);
    let batch = match_constellations_batch(&store, &vec![vec![make_star(1), make_star(1), make_star(1)], vec![make_star(9), make_star(9), make_star(9)]]).unwrap();
    assert_eq!(batch.len(), 1);
    assert_eq!(batch[0].constellation_id, 0);
}

#[test]
fn constellation_search_covers_only_recent() {
    let mut store = ConstellationStore::new();
    let user = Address::from_id(1);
    for i in 0..20u8 {
        record_constellation(&mut store, &user, &vec![make_star(100 + i), make_star(200), make_star(201)], 0).unwrap();
    }
    // Constellation 0 is outside the 15 most recent; its unique star is not found.
    let m = match_constellation(&store, &vec![make_star(100), make_star(200), make_star(250)]).unwrap();
    assert_eq!(m.constellation_id, 5);
    assert_eq!(m.matched_stars, 1);
}

// ─── Entanglement comms ──────────────────────────────────────────────────────

fn zero_message() -> [u8; 64] {
    [0u8; 64]
}

#[test]
fn test_entanglement_pair_creation() {
    let mut store = EntanglementStore::new();
    let owner_a = Address::from_id(1);
    let owner_b = Address::from_id(2);
    let pair_id = create_entanglement_pair(&mut store, &owner_a, 1u64, &owner_b, 2u64, 0).unwrap();
    assert_eq!(pair_id, 0u64);
}

#[test]
fn test_entanglement_same_ship_panics() {
    let mut store = EntanglementStore::new();
    let owner_a = Address::from_id(1);
    let owner_b = Address::from_id(2);
    let result = create_entanglement_pair(&mut store, &owner_a, 5u64, &owner_b, 5u64, 0);
    assert!(result.is_err());
}

#[test]
fn test_entanglement_send_message() {
    let mut store = EntanglementStore::new();
    let owner_a = Address::from_id(1);
    let owner_b = Address::from_id(2);
    let pair_id = create_entanglement_pair(&mut store, &owner_a, 1u64, &owner_b, 2u64, 0).unwrap();
    let seq = send_entangled_message(&mut store, &owner_a, pair_id, &zero_message(), 0).unwrap();
    assert_eq!(seq, 1u64);
    let seq2 = send_entangled_message(&mut store, &owner_b, pair_id, &zero_message(), 0).unwrap();
    assert_eq!(seq2, 2u64);
    assert_eq!(get_message_count(&store, pair_id), 2u64);
}

#[test]
fn test_entanglement_expired_pair_panics() {
    let mut store = EntanglementStore::new();
    let owner_a = Address::from_id(1);
    let owner_b = Address::from_id(2);
    let pair_id = create_entanglement_pair(&mut store, &owner_a, 1u64, &owner_b, 2u64, 0).unwrap();
    let result = send_entangled_message(&mut store, &owner_a, pair_id, &zero_message(), 31 * 86_400);
    assert!(result.is_err());
}

#[test]
fn test_entanglement_dissolve_stops_messages() {
    let mut store = EntanglementStore::new();
    let owner_a = Address::from_id(1);
    let owner_b = Address::from_id(2);
    let pair_id = create_entanglement_pair(&mut store, &owner_a, 1u64, &owner_b, 2u64, 0).unwrap();
    dissolve_pair(&mut store, &owner_a, pair_id).unwrap();
    let result = send_entangled_message(&mut store, &owner_b, pair_id, &zero_message(), 0);
    assert!(result.is_err());
}

#[test]
fn test_entanglement_unauthorized_send_panics() {
    let mut store = EntanglementStore::new();
    let owner_a = Address::from_id(1);
    let owner_b = Address::from_id(2);
    let outsider = Address::from_id(3);
    let pair_id = create_entanglement_pair(&mut store, &owner_a, 1u64, &owner_b, 2u64, 0).unwrap();
    let result = send_entangled_message(&mut store, &outsider, pair_id, &zero_message(), 0);
    assert!(result.is_err());
}

#[test]
fn entanglement_batches_and_errors() {
    let mut store = EntanglementStore::new();
    let a = Address::from_id(1);
    let b = Address::from_id(2);
    let pair_id = create_entanglement_pair(&mut store, &a, 1, &b, 2, 0).unwrap();
    let three = vec![zero_message(); 3];
    assert_eq!(send_entangled_message_batch(&mut store, &a, pair_id, &three, 0).unwrap(), 3);
    assert_eq!(send_entangled_message_batch(&mut store, &a, pair_id, &Vec::new(), 0).unwrap_err(), EntanglementError::EmptyBatch);
    assert_eq!(send_entangled_message_batch(&mut store, &a, pair_id, &vec![zero_message(); 21], 0).unwrap_err(), EntanglementError::BurstTooLarge);
    assert_eq!(send_entangled_message_batch(&mut store, &Address::from_id(9), pair_id, &three, 0).unwrap_err(), EntanglementError::NotAuthorized);
    assert_eq!(get_message_count(&store, pair_id), 3);
    assert_eq!(send_entangled_message(&mut store, &a, 7, &zero_message(), 0).unwrap_err(), EntanglementError::PairNotFound);
    assert_eq!(dissolve_pair(&mut store, &Address::from_id(9), pair_id).unwrap_err(), EntanglementError::NotAuthorized);
    // The last second of the lifetime still carries messages.
    assert_eq!(send_entangled_message(&mut store, &b, pair_id, &zero_message(), 30 * 86_400).unwrap(), 4);
    assert_eq!(send_entangled_message(&mut store, &b, pair_id, &zero_message(), 30 * 86_400 + 1).unwrap_err(), EntanglementError::PairNotActive);
}
