//! Saturating and wrapping machine arithmetic, stated over mathematical
//! integers, for the fixed-point and geometry layers built on top of it.
use vstd::prelude::*;

verus! {

/// `a * b` clamped to `u64::MAX` on overflow.
pub open spec fn sat_mul_u64(a: u64, b: u64) -> u64 {
    if a * b > u64::MAX {
        u64::MAX
    } else {
        (a * b) as u64
    }
}

/// `a + b` clamped to `u64::MAX` on overflow.
pub open spec fn sat_add_u64(a: u64, b: u64) -> u64 {
    if a + b > u64::MAX {
        u64::MAX
    } else {
        (a + b) as u64
    }
}

/// `a - b` clamped to zero on underflow.
pub open spec fn sat_sub_u64(a: u64, b: u64) -> u64 {
    if a >= b {
        (a - b) as u64
    } else {
        0u64
    }
}

/// `a * b` clamped to the `i64` range on overflow.
pub open spec fn sat_mul_i64(a: i64, b: i64) -> i64 {
    if a * b > i64::MAX {
        i64::MAX
    } else if a * b < i64::MIN {
        i64::MIN
    } else {
        (a * b) as i64
    }
}

/// `a - b` clamped to the `i64` range on overflow.
pub open spec fn sat_sub_i64(a: i64, b: i64) -> i64 {
    if a - b > i64::MAX {
        i64::MAX
    } else if a - b < i64::MIN {
        i64::MIN
    } else {
        (a - b) as i64
    }
}

/// The value of a 64-bit word reinterpreted as a two's-complement signed
/// integer.
pub open spec fn i64_of_bits(x: u64) -> int {
    if x <= i64::MAX {
        x as int
    } else {
        x - 0x1_0000_0000_0000_0000
    }
}

/// The `i64` whose two's-complement bit pattern is the low 64 bits of `v`.
pub open spec fn wrap_i64(v: int) -> int {
    let e = v % 0x1_0000_0000_0000_0000;
    if e > i64::MAX {
        e - 0x1_0000_0000_0000_0000
    } else {
        e
    }
}

/// Truncating (round-toward-zero) integer division, the `/` of the machine
/// on signed operands: the quotient of the magnitudes, negated when the
/// signs differ.
pub open spec fn trunc_div(a: int, b: int) -> int {
    let q = (if a < 0 {
        -a
    } else {
        a
    }) / (if b < 0 {
        -b
    } else {
        b
    });
    if (a < 0) != (b < 0) {
        -q
    } else {
        q
    }
}

pub fn mul_sat_u64(a: u64, b: u64) -> (r: u64)
    ensures
        r == sat_mul_u64(a, b),
{
    match a.checked_mul(b) {
        Some(v) => v,
        None => u64::MAX,
    }
}

pub fn add_sat_u64(a: u64, b: u64) -> (r: u64)
    ensures
        r == sat_add_u64(a, b),
{
    a.saturating_add(b)
}

pub fn sub_sat_u64(a: u64, b: u64) -> (r: u64)
    ensures
        r == sat_sub_u64(a, b),
{
    a.saturating_sub(b)
}

pub fn mul_sat_i64(a: i64, b: i64) -> (r: i64)
    ensures
        r == sat_mul_i64(a, b),
{
    match a.checked_mul(b) {
        Some(v) => v,
        None => {
            proof {
                assert((a < 0) != (b < 0) ==> a * b <= 0) by (nonlinear_arith);
                assert((a < 0) == (b < 0) ==> a * b >= 0) by (nonlinear_arith);
            }
            if (a < 0) != (b < 0) {
                i64::MIN
            } else {
                i64::MAX
            }
        },
    }
}

pub fn sub_sat_i64(a: i64, b: i64) -> (r: i64)
    ensures
        r == sat_sub_i64(a, b),
{
    match a.checked_sub(b) {
        Some(v) => v,
        None => {
            if b > 0 {
                i64::MIN
            } else {
                i64::MAX
            }
        },
    }
}

/// The `i64` with the same bit pattern as `x`.
pub fn to_i64_bits(x: u64) -> (r: i64)
    ensures
        r as int == i64_of_bits(x),
{
    if x <= 0x7FFF_FFFF_FFFF_FFFFu64 {
        x as i64
    } else {
        ((x - 0x8000_0000_0000_0000u64) as i64) + i64::MIN
    }
}

/// `(x * y) % m` computed through a 128-bit intermediate product.
pub fn mul_mod_u64(x: u64, y: u64, m: u64) -> (r: u64)
    requires
        m >= 1,
    ensures
        r == (x * y) % (m as int),
        r < m,
{
    proof {
        assert(x * y <= u128::MAX) by (nonlinear_arith)
            requires
                x <= u64::MAX && y <= u64::MAX,
        ;
        assert((x as u128) * (y as u128) == (x as int) * (y as int));
    }
    let p: u128 = (x as u128) * (y as u128);
    let r: u128 = p % (m as u128);
    proof {
        assert(r < m);
        assert(p % (m as u128) == (x * y) % (m as int));
    }
    r as u64
}

/// Truncating division of a signed value by 100, as the machine `/`
/// computes it.
pub fn div100_i64(a: i64) -> (r: i64)
    ensures
        r as int == trunc_div(a as int, 100),
        -92233720368547758 <= r <= 92233720368547758,
{
    let r: i64 = a / 100;
    proof {
        if a >= 0 {
            assert(r as int == a as int / 100);
            assert(a as int / 100 <= i64::MAX as int / 100) by (nonlinear_arith)
                requires
                    0 <= a <= i64::MAX,
            ;
        } else {
            assert(r as int == -((-(a as int)) / 100));
            assert((-(a as int)) / 100 <= 0x8000_0000_0000_0000int / 100) by (nonlinear_arith)
                requires
                    0 <= -(a as int) <= 0x8000_0000_0000_0000,
            ;
        }
    }
    r
}

/// Truncating 128-bit signed division, as the machine computes it.
pub fn tdiv_i128(a: i128, b: i128) -> (r: i128)
    requires
        b != 0,
        a != i128::MIN,
        b != i128::MIN,
    ensures
        r as int == trunc_div(a as int, b as int),
        -(if a < 0 {
            -(a as int)
        } else {
            a as int
        }) <= r <= (if a < 0 {
            -(a as int)
        } else {
            a as int
        }),
{
    let neg: bool = (a < 0) != (b < 0);
    let abs_a: i128 = if a < 0 {
        -a
    } else {
        a
    };
    let abs_b: i128 = if b < 0 {
        -b
    } else {
        b
    };
    let qq: i128 = abs_a / abs_b;
    proof {
        assert(qq == abs_a as int / abs_b as int);
        vstd::arithmetic::div_mod::lemma_fundamental_div_mod(abs_a as int, abs_b as int);
        assert(qq <= abs_a) by (nonlinear_arith)
            requires
                abs_a as int == abs_b as int * (abs_a as int / abs_b as int) + abs_a as int % abs_b
                    as int && abs_a as int % abs_b as int >= 0 && abs_b >= 1 && qq == abs_a as int
                    / abs_b as int && qq >= 0,
        ;
    }
    if neg {
        -qq
    } else {
        qq
    }
}
} // verus!
