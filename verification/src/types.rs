use vstd::prelude::*;

verus! {

broadcast use vstd::array::group_array_axioms;

/// An account or contract identity, held as the number by which the ledger
/// knows it. Two addresses are the same account exactly when their numbers agree.
#[derive(Clone, Copy, Debug, PartialEq, Eq, Structural)]
pub struct Address {
    pub id: u64,
}

impl Address {
    /// The address with the given ledger number.
    pub fn from_id(id: u64) -> (a: Address)
        ensures
            a.id == id,
    {
        Address { id }
    }
}

/// Integer division rounding toward zero, as Rust's `/` does (`b > 0`).
pub open spec fn trunc_div(a: int, b: int) -> int {
    if a >= 0 {
        a / b
    } else {
        -((-a) / b)
    }
}

/// Byte `k` (0 = most significant) of the big-endian encoding of a `u64`.
pub open spec fn u64_byte(x: u64, k: int) -> u8 {
    ((x >> ((8 * (7 - k)) as u64)) & 0xff) as u8
}

/// Byte `k` (0 = most significant) of the big-endian encoding of a `u32`.
pub open spec fn u32_byte(x: u32, k: int) -> u8 {
    ((x >> ((8 * (3 - k)) as u32)) & 0xff) as u8
}

/// The eight big-endian bytes of a `u64`.
pub open spec fn u64_be(x: u64) -> Seq<u8> {
    Seq::new(8, |k: int| u64_byte(x, k))
}

/// The four big-endian bytes of a `u32`.
pub open spec fn u32_be(x: u32) -> Seq<u8> {
    Seq::new(4, |k: int| u32_byte(x, k))
}

/// Byte `k` of the big-endian encoding of `x`.
pub fn u64_byte_at(x: u64, k: usize) -> (b: u8)
    requires
        k < 8,
    ensures
        b == u64_byte(x, k as int),
{
    let shift: u64 = 8 * (7 - k as u64);
    ((x >> shift) & 0xff) as u8
}

/// Byte `k` of the big-endian encoding of `x`.
pub fn u32_byte_at(x: u32, k: usize) -> (b: u8)
    requires
        k < 4,
    ensures
        b == u32_byte(x, k as int),
{
    let shift: u32 = 8 * (3 - k as u32);
    ((x >> shift) & 0xff) as u8
}

/// A copy of a vector of plain values.
pub fn copy_vec<T: Copy>(v: &Vec<T>) -> (r: Vec<T>)
    ensures
        r@ == v@,
{
    let mut r: Vec<T> = Vec::new();
    let mut i: usize = 0;
    while i < v.len()
        invariant
            0 <= i <= v@.len(),
            r@ == v@.subrange(0, i as int),
        decreases v@.len() - i,
    {
        r.push(v[i]);
        i += 1;
        proof {
            assert(r@ =~= v@.subrange(0, i as int));
        }
    }
    proof {
        assert(r@ =~= v@);
    }
    r
}

/// Whether two 32-byte values are equal.
pub fn bytes32_eq(a: &[u8; 32], b: &[u8; 32]) -> (r: bool)
    ensures
        r == (*a == *b),
{
    let mut i: usize = 0;
    while i < 32
        invariant
            0 <= i <= 32,
            forall|j: int| 0 <= j < i ==> a@[j] == b@[j],
        decreases 32 - i,
    {
        if a[i] != b[i] {
            return false;
        }
        i += 1;
    }
    proof {
        assert(*a =~= *b);
    }
    true
}

} // verus!
