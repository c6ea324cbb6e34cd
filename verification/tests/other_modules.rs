use stellar_nebula_nomad::anomaly_classifier::{
    classify_anomaly, classify_batch, get_classification, refine_classification, AnomalyError, AnomalyStore,
};
use stellar_nebula_nomad::audit_logger::{audit_details, get_audit_count, log_audit_event, query_audit_logs, AuditLog};
use stellar_nebula_nomad::blueprint_factory::{
    apply_blueprint_to_ship, batch_craft_blueprints, craft_blueprint, get_blueprint, rarity_from_components,
    BlueprintError, BlueprintRarity, BlueprintStore,
};
use stellar_nebula_nomad::referral_system::{
    claim_referral_reward, get_referral, mark_first_scan, register_referral, ReferralError, ReferralStore,
    ESSENCE_REWARD,
};
use stellar_nebula_nomad::session_manager::{expire_session, get_session, start_session, SessionError, SessionStore};
use stellar_nebula_nomad::shared_lib::{calculate_yield, SharedError};
use stellar_nebula_nomad::sustainability_metrics::{
    claim_sustainability_reward, get_footprint, record_transaction_footprint, SustainabilityError,
    SustainabilityStore,
};
use stellar_nebula_nomad::types::Address;

#[test]
fn yield_is_exact_or_overflows() {
    assert_eq!(calculate_yield(1_000, 3), Ok(3_000));
    assert_eq!(calculate_yield(-7, 2), Ok(-14));
    assert_eq!(calculate_yield(i128::MAX, 2), Err(SharedError::MathOverflow));
}

#[test]
fn referral_lifecycle() {
    let mut store = ReferralStore::new();
    let r = Address::from_id(1);
    let n = Address::from_id(2);
    assert_eq!(register_referral(&mut store, r, r, 0).unwrap_err(), ReferralError::SelfReferral);
    assert_eq!(register_referral(&mut store, r, n, 10).unwrap(), 1);
    assert_eq!(register_referral(&mut store, Address::from_id(3), n, 10).unwrap_err(), ReferralError::AlreadyReferred);
    assert_eq!(claim_referral_reward(&mut store, r, n, 20).unwrap_err(), ReferralError::FirstScanNotDone);
    assert_eq!(mark_first_scan(&mut store, Address::from_id(9)).unwrap_err(), ReferralError::ReferralNotFound);
    mark_first_scan(&mut store, n).unwrap();
    assert_eq!(claim_referral_reward(&mut store, r, n, 20).unwrap(), ESSENCE_REWARD);
    assert_eq!(claim_referral_reward(&mut store, r, n, 20).unwrap_err(), ReferralError::AlreadyClaimed);
    let rec = get_referral(&store, n).unwrap();
    assert!(rec.claimed && rec.first_scan_done);
    assert_eq!(rec.registered_at, 10);
    assert_eq!(get_referral(&store, r).unwrap_err(), ReferralError::ReferralNotFound);
}

#[test]
fn referral_daily_cap() {
    let mut store = ReferralStore::new();
    let r = Address::from_id(1);
    for i in 0..11u64 {
        let n = Address::from_id(100 + i);
        register_referral(&mut store, r, n, 0).unwrap();
        mark_first_scan(&mut store, n).unwrap();
    }
    for i in 0..10u64 {
        assert_eq!(claim_referral_reward(&mut store, r, Address::from_id(100 + i), 86_399).unwrap(), 100);
    }
    assert_eq!(
        claim_referral_reward(&mut store, r, Address::from_id(110), 86_399).unwrap_err(),
        ReferralError::DailyClaimCapReached
    );
    // The next day the cap is fresh.
    assert_eq!(claim_referral_reward(&mut store, r, Address::from_id(110), 86_400).unwrap(), 100);
}

#[test]
fn session_cap_and_expiry() {
    let mut store = SessionStore::new();
    let p = Address::from_id(1);
    let a = start_session(&mut store, p, 5, 100).unwrap();
    let b = start_session(&mut store, p, 5, 100).unwrap();
    let _c = start_session(&mut store, p, 5, 100).unwrap();
    assert_eq!((a, b), (1, 2));
    assert_eq!(start_session(&mut store, p, 5, 100).unwrap_err(), SessionError::TooManySessions);
    let other = Address::from_id(2);
    assert_eq!(expire_session(&mut store, other, a, 100).unwrap_err(), SessionError::NotOwner);
    // Anyone may close a session once its 24 hours are over.
    expire_session(&mut store, other, a, 100 + 86_400).unwrap();
    assert_eq!(expire_session(&mut store, p, a, 0).unwrap_err(), SessionError::SessionExpired);
    assert_eq!(expire_session(&mut store, p, 77, 0).unwrap_err(), SessionError::SessionNotFound);
    expire_session(&mut store, p, b, 0).unwrap();
    let s = get_session(&store, b).unwrap();
    assert!(!s.active);
    assert_eq!(s.expires_at, 100 + 86_400);
    assert_eq!(start_session(&mut store, p, 6, 200).unwrap(), 4);
    assert_eq!(get_session(&store, 9).unwrap_err(), SessionError::SessionNotFound);
}

#[test]
fn footprint_and_eco_reward() {
    let mut store = SustainabilityStore::new();
    let p = Address::from_id(1);
    assert_eq!(record_transaction_footprint(&mut store, &p, 0, 5).unwrap_err(), SustainabilityError::InvalidGasValue);
    let f = record_transaction_footprint(&mut store, &p, 1_000, 5).unwrap();
    assert_eq!((f.gas_used, f.co2_emissions, f.tx_count, f.last_update_ts), (1_000, 42, 1, 5));
    let f = record_transaction_footprint(&mut store, &p, 500, 9).unwrap();
    assert_eq!((f.gas_used, f.co2_emissions, f.tx_count, f.last_update_ts), (1_500, 63, 2, 9));
    assert_eq!(get_footprint(&store, &p, 100), f);
    // (10_000 - 1_500) / 100 = 85; the footprint then starts afresh.
    assert_eq!(claim_sustainability_reward(&mut store, &p, 10).unwrap(), 85);
    assert_eq!(get_footprint(&store, &p, 11).gas_used, 0);
    record_transaction_footprint(&mut store, &p, 9_950, 12).unwrap();
    assert_eq!(claim_sustainability_reward(&mut store, &p, 13).unwrap_err(), SustainabilityError::NoRewardEligible);
    assert_eq!(claim_sustainability_reward(&mut store, &Address::from_id(2), 13).unwrap(), 100);
}

#[test]
fn anomaly_classification() {
    let mut store = AnomalyStore::new();
    assert_eq!(classify_anomaly(&mut store, 1, &vec![1, 2], 0).unwrap_err(), AnomalyError::InsufficientFeatures);
    let r = classify_anomaly(&mut store, 1, &vec![100, 100, 50], 7).unwrap();
    assert_eq!((r.anomaly_type.as_str(), r.confidence, r.scan_count, r.last_updated), ("blackhole", 83, 1, 7));
    let r = classify_anomaly(&mut store, 2, &vec![50, 50, 21], 7).unwrap();
    assert_eq!((r.anomaly_type.as_str(), r.confidence), ("wormhole", 40));
    let r = classify_anomaly(&mut store, 3, &vec![u32::MAX, 5, 5], 7).unwrap();
    assert_eq!((r.anomaly_type.as_str(), r.confidence), ("blackhole", 100));
    // Refine: (83 * 1 + 17) / 2 = 50 → "anomaly".
    let r = refine_classification(&mut store, 1, &vec![17], 8).unwrap();
    assert_eq!((r.anomaly_type.as_str(), r.confidence, r.scan_count, r.last_updated), ("anomaly", 50, 2, 8));
    assert_eq!(refine_classification(&mut store, 1, &Vec::new(), 8).unwrap_err(), AnomalyError::InsufficientFeatures);
    assert_eq!(refine_classification(&mut store, 9, &vec![1], 8).unwrap_err(), AnomalyError::NotFound);
    assert_eq!(get_classification(&store, 1).unwrap().confidence, 50);
    let batch = classify_batch(&mut store, &vec![(4, vec![1, 1, 1]), (5, vec![1]), (6, vec![60, 60, 60])], 9);
    assert_eq!(batch.len(), 2);
    assert_eq!(batch[0].anomaly_id, 4);
    assert_eq!(batch[1].anomaly_type, "wormhole");
    assert!(get_classification(&store, 5).is_none());
    assert_eq!(get_classification(&store, 4).unwrap().anomaly_type, "nebula");
}

#[test]
fn audit_log_queries() {
    let mut log = AuditLog::new();
    let a = Address::from_id(1);
    let d = audit_details(0x0102, 7);
    assert_eq!(&d[0..8], &0x0102u64.to_be_bytes());
    assert_eq!(&d[8..16], &7u64.to_be_bytes());
    assert!(d[16..].iter().all(|b| *b == 0));
    let e = log_audit_event(&mut log, Some(a), &String::from("ow"), &d, 5).unwrap();
    assert_eq!((e.id, e.timestamp, e.actor), (0, 5, Some(a)));
    log_audit_event(&mut log, None, &String::from("tw"), &audit_details(0, 0), 6).unwrap();
    log_audit_event(&mut log, Some(a), &String::from("ow"), &audit_details(3, 4), 7).unwrap();
    assert_eq!(get_audit_count(&log), 3);
    let all_ow = query_audit_logs(&log, &String::from("ow"), 0);
    assert_eq!(all_ow.iter().map(|e| e.id).collect::<Vec<u64>>(), vec![0, 2]);
    let first_two = query_audit_logs(&log, &String::from("ow"), 2);
    assert_eq!(first_two.len(), 1);
    assert_eq!(query_audit_logs(&log, &String::from("xx"), 0).len(), 0);
}

#[test]
fn blueprint_crafting() {
    assert_eq!(rarity_from_components(0), BlueprintRarity::Common);
    assert_eq!(rarity_from_components(3), BlueprintRarity::Common);
    assert_eq!(rarity_from_components(4), BlueprintRarity::Uncommon);
    assert_eq!(rarity_from_components(5), BlueprintRarity::Uncommon);
    assert_eq!(rarity_from_components(6), BlueprintRarity::Rare);
    let mut store = BlueprintStore::new();
    let owner = Address::from_id(1);
    let c = |n: usize| -> Vec<String> { (0..n).map(|i| format!("c{}", i)).collect() };
    assert_eq!(craft_blueprint(&mut store, owner, &c(1), 0).unwrap_err(), BlueprintError::InvalidComponents);
    assert_eq!(craft_blueprint(&mut store, owner, &c(4), 3).unwrap(), 1);
    let b = get_blueprint(&store, 1).unwrap();
    assert_eq!((b.rarity, b.applied, b.created_at), (BlueprintRarity::Uncommon, false, 3));
    assert_eq!(b.components, c(4));
    assert_eq!(batch_craft_blueprints(&mut store, owner, &vec![c(2), c(6)], 4).unwrap(), vec![2, 3]);
    assert_eq!(get_blueprint(&store, 3).unwrap().rarity, BlueprintRarity::Rare);
    assert_eq!(batch_craft_blueprints(&mut store, owner, &vec![c(2), c(2), c(2)], 4).unwrap_err(), BlueprintError::BatchTooLarge);
    assert_eq!(batch_craft_blueprints(&mut store, owner, &vec![c(2), c(1)], 4).unwrap_err(), BlueprintError::InvalidComponents);
    assert_eq!(get_blueprint(&store, 4).unwrap_err(), BlueprintError::BlueprintNotFound);
    assert_eq!(apply_blueprint_to_ship(&mut store, Address::from_id(2), 1, 9).unwrap_err(), BlueprintError::NotOwner);
    apply_blueprint_to_ship(&mut store, owner, 1, 9).unwrap();
    assert!(get_blueprint(&store, 1).unwrap().applied);
    assert_eq!(apply_blueprint_to_ship(&mut store, owner, 1, 9).unwrap_err(), BlueprintError::AlreadyApplied);
    assert_eq!(apply_blueprint_to_ship(&mut store, owner, 0, 9).unwrap_err(), BlueprintError::BlueprintNotFound);
}

#[test]
fn referral_reward_only_for_the_referrer() {
    let mut store = ReferralStore::new();
    let r = Address::from_id(1);
    let n = Address::from_id(2);
    let stranger = Address::from_id(3);
    register_referral(&mut store, r, n, 10).unwrap();
    mark_first_scan(&mut store, n).unwrap();
    assert_eq!(claim_referral_reward(&mut store, stranger, n, 20).unwrap_err(), ReferralError::NotReferrer);
    assert!(!get_referral(&store, n).unwrap().claimed);
    assert_eq!(claim_referral_reward(&mut store, r, n, 20).unwrap(), ESSENCE_REWARD);
}
