//! Bit-level utilities: population count, bit reversal, rotations,
//! carry-less multiplication and constant-time comparison.
use vstd::prelude::*;

verus! {

/// The number of set bits of `x` at positions `i` and above.
pub open spec fn count_bits_from(x: u64, i: int) -> nat
    decreases 64 - i,
{
    if i < 0 || i >= 64 {
        0
    } else {
        (((x >> (i as u64)) & 1) + count_bits_from(x, i + 1)) as nat
    }
}

/// Population count: the number of set bits.
pub fn popcount(n: u64) -> (r: u32)
    ensures
        r == count_bits_from(n, 0),
{
    let mut i: u64 = 0;
    let mut acc: u32 = 0;
    while i < 64
        invariant
            i <= 64,
            acc <= i,
            acc + count_bits_from(n, i as int) == count_bits_from(n, 0),
        decreases 64 - i,
    {
        let bit: u64 = (n >> i) & 1;
        proof {
            assert((n >> i) & 1 <= 1) by (bit_vector);
        }
        acc = acc + (bit as u32);
        i = i + 1;
    }
    acc
}

/// The bit-reversal accumulation: shift the accumulator up and feed in
/// bit `i` of `x`, for each `i` from low to high.
pub open spec fn rev_step(x: u64, i: int, acc: u64) -> u64
    decreases 64 - i,
{
    if i < 0 || i >= 64 {
        acc
    } else {
        rev_step(x, i + 1, (acc << 1u64) | ((x >> (i as u64)) & 1))
    }
}

/// Reverse the 64 bits of `n`: bit `i` of the input becomes bit `63 - i`
/// of the result.
pub fn reverse_bits(n: u64) -> (r: u64)
    ensures
        r == rev_step(n, 0, 0),
{
    let mut i: u64 = 0;
    let mut acc: u64 = 0;
    while i < 64
        invariant
            i <= 64,
            rev_step(n, i as int, acc) == rev_step(n, 0, 0),
        decreases 64 - i,
    {
        acc = (acc << 1u64) | ((n >> i) & 1);
        i = i + 1;
    }
    acc
}

/// Rotate `n` left by `k` bit positions (modulo the word width): the bits
/// shifted off the top re-enter at the bottom.
pub fn rotl64(n: u64, k: u32) -> (r: u64)
    ensures
        r == ({
            let s = (k as u64) % 64;
            (n << s) | (n >> ((64 - s) % 64))
        }),
{
    let s: u64 = (k as u64) % 64;
    (n << s) | (n >> ((64 - s) % 64))
}

/// Rotate `n` right by `k` bit positions (modulo the word width): the
/// bits shifted off the bottom re-enter at the top.
pub fn rotr64(n: u64, k: u32) -> (r: u64)
    ensures
        r == ({
            let s = (k as u64) % 64;
            (n >> s) | (n << ((64 - s) % 64))
        }),
{
    let s: u64 = (k as u64) % 64;
    (n >> s) | (n << ((64 - s) % 64))
}

/// The carry-less (GF(2) polynomial) product of the bits of `b` below
/// index `i` with `a`: XOR of `a << j` over the set bits `j` of `b`.
pub open spec fn clmul_below(a: u64, b: u64, i: int) -> u128
    decreases i,
{
    if i <= 0 || i > 64 {
        0
    } else {
        clmul_below(a, b, i - 1) ^ (if (b >> ((i - 1) as u64)) & 1 == 1 {
            (a as u128) << ((i - 1) as u128)
        } else {
            0
        })
    }
}

/// Carry-less multiplication over GF(2): XOR, not addition, combines the
/// shifted partial products; the full 128-bit product is returned.
pub fn clmul(a: u64, b: u64) -> (r: u128)
    ensures
        r == clmul_below(a, b, 64),
{
    let mut res: u128 = 0;
    let mut i: u64 = 0;
    while i < 64
        invariant
            i <= 64,
            res == clmul_below(a, b, i as int),
        decreases 64 - i,
    {
        let ghost ii = i as int;
        let ghost res0 = res;
        if (b >> i) & 1 == 1 {
            res = res ^ ((a as u128) << (i as u128));
        }
        i = i + 1;
        proof {
            assert(clmul_below(a, b, ii + 1) == clmul_below(a, b, ii) ^ (if (b >> (ii as u64)) & 1
                == 1 {
                (a as u128) << (ii as u128)
            } else {
                0u128
            }));
            assert(res0 ^ 0u128 == res0) by (bit_vector);
        }
    }
    res
}

/// Byte-sequence equality in constant time for equal lengths: the
/// comparison accumulates XOR differences with no early exit, so its
/// timing does not reveal the first mismatch; unequal lengths return
/// false immediately.
pub fn constant_time_eq(a: &[u8], b: &[u8]) -> (r: bool)
    ensures
        r == (a@ == b@),
{
    if a.len() != b.len() {
        proof {
            assert(a@ != b@) by {
                assert(a@.len() != b@.len());
            }
        }
        return false;
    }
    let mut acc: u8 = 0;
    let mut i: usize = 0;
    while i < a.len()
        invariant
            a@.len() == b@.len(),
            i <= a@.len(),
            (acc == 0) <==> (forall|j: int| 0 <= j < i ==> a@[j] == b@[j]),
        decreases a@.len() - i,
    {
        let x: u8 = a[i];
        let y: u8 = b[i];
        proof {
            assert((x ^ y == 0) == (x == y)) by (bit_vector);
            assert(forall|u: u8, v: u8| (u | v == 0) == (u == 0 && v == 0)) by (bit_vector);
        }
        acc = acc | (x ^ y);
        i = i + 1;
    }
    proof {
        if acc == 0 {
            assert(a@ =~= b@);
        }
    }
    acc == 0
}

} // verus!
