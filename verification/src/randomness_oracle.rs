use vstd::prelude::*;
use soroban_sdk::{Bytes, Env};
use crate::types::{copy_vec, u32_be, u64_be, u32_byte_at, u64_byte_at};

verus! {

/// Most seeds kept in the entropy pool.
pub const MAX_ENTROPY_POOL_SIZE: usize = 10;

/// The ledger environment, through which the host computes hashes.
#[verifier::external_type_specification]
#[verifier::external_body]
pub struct ExEnv(Env);

/// Errors of the randomness oracle.
#[derive(Clone, Copy, Debug, PartialEq, Eq, Structural)]
pub enum OracleError {
    /// The provided seed failed validation.
    SeedInvalid,
}

/// The entropy pool (the last seeds, oldest first) and the last seed
/// handed out, kept as a fallback.
pub struct OracleStore {
    pub pool: Vec<[u8; 32]>,
    pub previous: Option<[u8; 32]>,
}

/// The SHA-256 digest of `data`, as the ledger host computes it.
pub uninterp spec fn sha256_of(data: Seq<u8>) -> Seq<u8>;

/// SHA-256 of `data`, computed by the host through
/// `soroban_sdk::crypto::Crypto::sha256`. Its contract claims only that the
/// 32 bytes returned are the digest of the bytes passed, whatever the
/// environment.
#[verifier::external_body]
fn sha256(env: &Env, data: &Vec<u8>) -> (r: [u8; 32])
    ensures
        r@ == sha256_of(data@),
{
    env.crypto().sha256(&Bytes::from_slice(env, data.as_slice())).to_array()
}

/// The pool's seeds one after the other.
pub open spec fn flatten(pool: Seq<[u8; 32]>) -> Seq<u8>
    decreases pool.len(),
{
    if pool.len() == 0 {
        Seq::empty()
    } else {
        flatten(pool.drop_last()) + pool.last()@
    }
}

/// The bytes hashed into a new seed: ledger sequence and timestamp (big
/// endian), the network id, then every seed of the pool.
pub open spec fn seed_input(sequence: u32, timestamp: u64, network_id: Seq<u8>, pool: Seq<[u8; 32]>) -> Seq<u8> {
    u32_be(sequence) + u64_be(timestamp) + network_id + flatten(pool)
}

/// The pool after adding `seed`: at most nine of the newest seeds stay.
pub open spec fn rotate_pool(pool: Seq<[u8; 32]>, seed: [u8; 32]) -> Seq<[u8; 32]> {
    let start = if pool.len() >= MAX_ENTROPY_POOL_SIZE {
        pool.len() - MAX_ENTROPY_POOL_SIZE + 1
    } else {
        0
    };
    pool.subrange(start, pool.len() as int).push(seed)
}

/// Whether every byte of a seed is zero.
pub open spec fn zero_seed(seed: [u8; 32]) -> bool {
    forall|i: int| 0 <= i < 32 ==> #[trigger] seed@[i] == 0
}

impl OracleStore {
    /// An oracle with an empty pool and no fallback.
    pub fn new() -> (s: OracleStore)
        ensures
            s.pool@ == Seq::<[u8; 32]>::empty(),
            s.previous is None,
    {
        OracleStore { pool: Vec::new(), previous: None }
    }
}

/// The bytes hashed into a new seed.
fn build_seed_input(sequence: u32, timestamp: u64, network_id: &[u8; 32], pool: &Vec<[u8; 32]>) -> (r: Vec<u8>)
    ensures
        r@ == seed_input(sequence, timestamp, network_id@, pool@),
{
    let mut input: Vec<u8> = Vec::new();
    let mut k: usize = 0;
    while k < 4
        invariant
            0 <= k <= 4,
            input@ == u32_be(sequence).subrange(0, k as int),
        decreases 4 - k,
    {
        input.push(u32_byte_at(sequence, k));
        k += 1;
        proof { assert(input@ =~= u32_be(sequence).subrange(0, k as int)); }
    }
    let ghost part1 = input@;
    k = 0;
    while k < 8
        invariant
            0 <= k <= 8,
            part1 == u32_be(sequence).subrange(0, 4),
            input@ == part1 + u64_be(timestamp).subrange(0, k as int),
        decreases 8 - k,
    {
        input.push(u64_byte_at(timestamp, k));
        k += 1;
        proof { assert(input@ =~= part1 + u64_be(timestamp).subrange(0, k as int)); }
    }
    proof {
        assert(u32_be(sequence).subrange(0, 4) =~= u32_be(sequence));
        assert(u64_be(timestamp).subrange(0, 8) =~= u64_be(timestamp));
    }
    let ghost part2 = input@;
    k = 0;
    while k < 32
        invariant
            0 <= k <= 32,
            input@ == part2 + network_id@.subrange(0, k as int),
        decreases 32 - k,
    {
        input.push(network_id[k]);
        k += 1;
        proof { assert(input@ =~= part2 + network_id@.subrange(0, k as int)); }
    }
    proof { assert(network_id@.subrange(0, 32) =~= network_id@); }
    let ghost part3 = input@;
    let mut i: usize = 0;
    while i < pool.len()
        invariant
            0 <= i <= pool@.len(),
            input@ == part3 + flatten(pool@.subrange(0, i as int)),
        decreases pool@.len() - i,
    {
        let s = &pool[i];
        let ghost before = input@;
        let mut j: usize = 0;
        while j < 32
            invariant
                0 <= j <= 32,
                input@ == before + s@.subrange(0, j as int),
            decreases 32 - j,
        {
            input.push(s[j]);
            j += 1;
            proof { assert(input@ =~= before + s@.subrange(0, j as int)); }
        }
        proof {
            assert(s@.subrange(0, 32) =~= s@);
            assert(pool@.subrange(0, i + 1).drop_last() =~= pool@.subrange(0, i as int));
            assert(input@ =~= part3 + flatten(pool@.subrange(0, i + 1)));
        }
        i += 1;
    }
    proof {
        assert(pool@.subrange(0, pool@.len() as int) =~= pool@);
        assert(input@ =~= seed_input(sequence, timestamp, network_id@, pool@));
    }
    input
}

/// A new random seed for ledger `sequence` at `timestamp` on network
/// `network_id`: the SHA-256 of those and of every seed in the entropy
/// pool. The seed joins the pool (which keeps the ten newest) and becomes
/// the fallback.
pub fn request_random_seed(env: &Env, store: &mut OracleStore, sequence: u32, timestamp: u64, network_id: &[u8; 32]) -> (r: [u8; 32])
    ensures
        r@ == sha256_of(seed_input(sequence, timestamp, network_id@, old(store).pool@)),
        final(store).pool@ == rotate_pool(old(store).pool@, r),
        final(store).previous == Some(r),
{
    let input = build_seed_input(sequence, timestamp, network_id, &store.pool);
    let seed = sha256(env, &input);
    record_seed(store, seed);
    seed
}

/// Add a freshly generated `seed` to the entropy pool (which keeps the ten
/// newest seeds) and make it the fallback for rejected seeds.
pub fn record_seed(store: &mut OracleStore, seed: [u8; 32])
    ensures
        final(store).pool@ == rotate_pool(old(store).pool@, seed),
        final(store).previous == Some(seed),
{
    let len = store.pool.len();
    let start: usize = if len >= MAX_ENTROPY_POOL_SIZE { len - MAX_ENTROPY_POOL_SIZE + 1 } else { 0 };
    let mut new_pool: Vec<[u8; 32]> = Vec::new();
    let mut i: usize = start;
    while i < len
        invariant
            start <= i <= len,
            len == store.pool@.len(),
            new_pool@ == store.pool@.subrange(start as int, i as int),
        decreases len - i,
    {
        new_pool.push(store.pool[i]);
        i += 1;
        proof { assert(new_pool@ =~= store.pool@.subrange(start as int, i as int)); }
    }
    new_pool.push(seed);
    store.pool = new_pool;
    store.previous = Some(seed);
}

/// Whether every byte of `seed` is zero.
pub fn is_zero_seed(seed: &[u8; 32]) -> (r: bool)
    ensures
        r == zero_seed(*seed),
{
    let mut i: usize = 0;
    while i < 32
        invariant
            0 <= i <= 32,
            forall|k: int| 0 <= k < i ==> #[trigger] seed@[k] == 0,
        decreases 32 - i,
    {
        if seed[i] != 0 {
            return false;
        }
        i += 1;
    }
    true
}

/// Accept `seed` unless it is all zeros; then fall back to the last seed
/// handed out, or fail when there is none.
pub fn verify_and_fallback(store: &OracleStore, seed: &[u8; 32]) -> (r: Result<[u8; 32], OracleError>)
    ensures
        !zero_seed(*seed) ==> r == Ok::<[u8; 32], OracleError>(*seed),
        zero_seed(*seed) && store.previous is Some ==> r == Ok::<[u8; 32], OracleError>(store.previous->0),
        zero_seed(*seed) && store.previous is None ==> r == Err::<[u8; 32], OracleError>(OracleError::SeedInvalid),
{
    if is_zero_seed(seed) {
        match store.previous {
            Some(prev) => Ok(prev),
            None => Err(OracleError::SeedInvalid),
        }
    } else {
        Ok(*seed)
    }
}

/// The current entropy pool, oldest first.
pub fn get_entropy_pool(store: &OracleStore) -> (r: Vec<[u8; 32]>)
    ensures
        r@ == store.pool@,
{
    copy_vec(&store.pool)
}

/// Law of the entropy pool: it never holds more than ten seeds, and the
/// newest seed is its last.
pub proof fn lemma_pool_bounded(pool: Seq<[u8; 32]>, seed: [u8; 32])
    ensures
        rotate_pool(pool, seed).len() <= MAX_ENTROPY_POOL_SIZE,
        rotate_pool(pool, seed).last() == seed,
        pool.len() < MAX_ENTROPY_POOL_SIZE ==> rotate_pool(pool, seed) == pool.push(seed),
{
    if pool.len() < MAX_ENTROPY_POOL_SIZE {
        assert(pool.subrange(0, pool.len() as int) =~= pool);
    }
}

} // verus!
