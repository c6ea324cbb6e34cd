use soroban_sdk::Env;
use stellar_nebula_nomad::randomness_oracle::{
    get_entropy_pool, is_zero_seed, record_seed, request_random_seed, verify_and_fallback, OracleError,
    OracleStore, MAX_ENTROPY_POOL_SIZE,
};

struct Ledger {
    sequence: u32,
    timestamp: u64,
    network_id: [u8; 32],
}

fn setup() -> (Env, OracleStore, Ledger) {
    (Env::default(), OracleStore::new(), Ledger { sequence: 100, timestamp: 1_700_000_000, network_id: [0u8; 32] })
}

fn advance_ledger(l: &mut Ledger, seq_delta: u32, ts_delta: u64) {
    l.sequence += seq_delta;
    l.timestamp += ts_delta;
}

fn request(env: &Env, store: &mut OracleStore, l: &Ledger) -> [u8; 32] {
    request_random_seed(env, store, l.sequence, l.timestamp, &l.network_id)
}

#[test]
fn test_request_random_seed_returns_32_bytes() {
    let (env, mut store, l) = setup();
    let seed = request(&env, &mut store, &l);
    assert_ne!(seed, [0u8; 32]);
}

#[test]
fn test_different_blocks_produce_different_seeds() {
    let (env, mut store, mut l) = setup();
    let seed1 = request(&env, &mut store, &l);
    advance_ledger(&mut l, 1, 5);
    let seed2 = request(&env, &mut store, &l);
    assert_ne!(seed1, seed2, "Seeds from different blocks should differ");
}

#[test]
fn test_entropy_pool_grows() {
    let (env, mut store, mut l) = setup();
    assert_eq!(get_entropy_pool(&store).len(), 0);
    request(&env, &mut store, &l);
    assert_eq!(get_entropy_pool(&store).len(), 1);
    advance_ledger(&mut l, 1, 5);
    request(&env, &mut store, &l);
    assert_eq!(get_entropy_pool(&store).len(), 2);
    advance_ledger(&mut l, 1, 5);
    request(&env, &mut store, &l);
    assert_eq!(get_entropy_pool(&store).len(), 3);
}

#[test]
fn test_entropy_pool_caps_at_max() {
    let (env, mut store, mut l) = setup();
    for _ in 0..12u32 {
        advance_ledger(&mut l, 1, 5);
        request(&env, &mut store, &l);
    }
    let pool = get_entropy_pool(&store);
    assert!(pool.len() <= 10, "Entropy pool should cap at 10");
}

#[test]
fn test_verify_valid_seed_passes_through() {
    let (_env, store, _l) = setup();
    let seed = [42u8; 32];
    let result = verify_and_fallback(&store, &seed).unwrap();
    assert_eq!(result, seed);
}

#[test]
fn test_verify_zero_seed_with_fallback() {
    let (env, mut store, l) = setup();
    let prev_seed = request(&env, &mut store, &l);
    let zero = [0u8; 32];
    let result = verify_and_fallback(&store, &zero).unwrap();
    assert_eq!(result, prev_seed);
}

#[test]
fn test_verify_zero_seed_no_fallback_fails() {
    let (_env, store, _l) = setup();
    let zero = [0u8; 32];
    let result = verify_and_fallback(&store, &zero);
    assert!(result.is_err());
}

#[test]
fn test_seed_uniqueness_across_many_blocks() {
    let (env, mut store, mut l) = setup();
    let mut seeds: Vec<[u8; 32]> = Vec::new();
    for i in 0..20u32 {
        advance_ledger(&mut l, 1, 5);
        let seed = request(&env, &mut store, &l);
        for s in seeds.iter() {
            assert_ne!(*s, seed, "Seed at block {} should be unique", i);
        }
        seeds.push(seed);
    }
}

#[test]
fn test_multi_block_mixing_changes_output() {
    let (env, mut store, l) = setup();
    let seed_fresh = request(&env, &mut store, &l);
    let same = Ledger { sequence: 100, timestamp: 1_700_000_000, network_id: [0u8; 32] };
    let seed_with_pool = request(&env, &mut store, &same);
    assert_ne!(seed_fresh, seed_with_pool, "Entropy pool should change the seed even at the same block");
}

#[test]
fn seed_is_sha256_of_ledger_data_and_pool() {
    let env = Env::default();
    let mut store = OracleStore::new();
    let seed = request_random_seed(&env, &mut store, 1, 2, &[3u8; 32]);
    let mut input: Vec<u8> = Vec::new();
    input.extend_from_slice(&1u32.to_be_bytes());
    input.extend_from_slice(&2u64.to_be_bytes());
    input.extend_from_slice(&[3u8; 32]);
    let expected = env.crypto().sha256(&soroban_sdk::Bytes::from_slice(&env, &input)).to_array();
    assert_eq!(seed, expected);
    // The second seed hashes the first one in.
    let seed2 = request_random_seed(&env, &mut store, 1, 2, &[3u8; 32]);
    input.extend_from_slice(&seed);
    let expected2 = env.crypto().sha256(&soroban_sdk::Bytes::from_slice(&env, &input)).to_array();
    assert_eq!(seed2, expected2);
    assert_eq!(get_entropy_pool(&store), vec![seed, seed2]);
}

#[test]
fn pool_keeps_ten_newest() {
    let env = Env::default();
    let mut store = OracleStore::new();
    let mut all = Vec::new();
    for i in 0..13u32 {
        all.push(request_random_seed(&env, &mut store, i, i as u64, &[0u8; 32]));
    }
    let pool = get_entropy_pool(&store);
    assert_eq!(pool.len(), MAX_ENTROPY_POOL_SIZE);
    assert_eq!(pool, all[3..].to_vec());
    assert!(is_zero_seed(&[0u8; 32]));
    assert!(!is_zero_seed(&{
        let mut s = [0u8; 32];
        s[31] = 1;
        s
    }));
    assert_eq!(verify_and_fallback(&OracleStore::new(), &[0u8; 32]).unwrap_err(), OracleError::SeedInvalid);
}

#[test]
fn record_seed_keeps_the_ten_newest() {
    let mut store = OracleStore::new();
    for i in 1..=12u8 {
        record_seed(&mut store, [i; 32]);
    }
    let pool = get_entropy_pool(&store);
    assert_eq!(pool.len(), MAX_ENTROPY_POOL_SIZE);
    assert_eq!(pool[0], [3u8; 32]);
    assert_eq!(pool[9], [12u8; 32]);
    assert_eq!(verify_and_fallback(&store, &[0u8; 32]).unwrap(), [12u8; 32]);
}
