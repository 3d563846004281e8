//! Scale-100 fixed-point arithmetic on saturating 64-bit integers.
//!
//! A scalar with value `v` stands for the decimal number `v / 100`; every
//! multiplication or division renormalizes by one factor of 100.
use vstd::prelude::*;

use crate::arith;
use crate::arith::sat_mul_u64;

verus! {

/// The largest input whose scaling by 100 stays below `u64::MAX`; beyond
/// it the square-root iteration has no defined result.
pub const SQRT_INPUT_MAX: u64 = u64::MAX / 100;

/// `r` is the integer square root of `v`: the greatest integer whose
/// square does not exceed `v`.
pub open spec fn is_isqrt(r: int, v: int) -> bool {
    &&& r >= 0
    &&& r * r <= v
    &&& (r + 1) * (r + 1) > v
}

/// The integer square root of `v`, as a value: well-defined because the
/// root is unique.
pub open spec fn spec_isqrt(v: int) -> int {
    choose|r: int| is_isqrt(r, v)
}

/// Two integer square roots of the same value coincide.
pub proof fn lemma_isqrt_unique(r1: int, r2: int, v: int)
    requires
        is_isqrt(r1, v),
        is_isqrt(r2, v),
    ensures
        r1 == r2,
{
    assert(r1 == r2) by (nonlinear_arith)
        requires
            r1 >= 0 && r2 >= 0 && r1 * r1 <= v && (r1 + 1) * (r1 + 1) > v && r2 * r2 <= v && (r2
                + 1) * (r2 + 1) > v,
    ;
}

/// Fixed-point multiply: the saturated product, renormalized by 100.
pub fn mul(a: u64, b: u64) -> (r: u64)
    ensures
        r == sat_mul_u64(a, b) / 100,
{
    arith::mul_sat_u64(a, b) / 100
}

/// Fixed-point divide: zero when the divisor is zero, else the saturated
/// scaled dividend over the divisor.
pub fn div(a: u64, b: u64) -> (r: u64)
    ensures
        b == 0 ==> r == 0,
        b != 0 ==> r == sat_mul_u64(a, 100) / b,
{
    if b == 0 {
        return 0;
    }
    arith::mul_sat_u64(a, 100) / b
}

/// Fixed-point square of `n`.
pub fn square(n: u64) -> (r: u64)
    ensures
        r == sat_mul_u64(n, n) / 100,
{
    arith::mul_sat_u64(n, n) / 100
}

/// Two-sided clamp; an inverted bound pair (`min > max`) is the caller's
/// responsibility, as the result then only honours the bound it compares
/// against first.
pub fn clamp(value: u64, min: u64, max: u64) -> (r: u64)
    ensures
        r == if value < min {
            min
        } else if value > max {
            max
        } else {
            value
        },
{
    if value < min {
        min
    } else if value > max {
        max
    } else {
        value
    }
}

/// Linear interpolation from `start` toward `end` by `t` hundredths,
/// with `t` clamped to at most 100.
pub open spec fn spec_lerp(start: u64, end: u64, t: u64) -> int {
    let tc = if t > 100 {
        100u64
    } else {
        t
    };
    if start < end {
        start + sat_mul_u64((end - start) as u64, tc) / 100
    } else {
        start - sat_mul_u64((start - end) as u64, tc) / 100
    }
}

pub fn lerp(start: u64, end: u64, t: u64) -> (r: u64)
    ensures
        r == spec_lerp(start, end, t),
{
    let t_clamped: u64 = if t > 100 { 100 } else { t };
    if start < end {
        let delta: u64 = end - start;
        let step: u64 = arith::mul_sat_u64(delta, t_clamped) / 100;
        proof {
            if delta * t_clamped > u64::MAX {
                assert(delta > u64::MAX / 100) by (nonlinear_arith)
                    requires
                        delta * t_clamped > u64::MAX && t_clamped <= 100,
                ;
                assert(start + u64::MAX as u64 / 100 <= u64::MAX);
            } else {
                assert(delta * t_clamped <= delta * 100) by (nonlinear_arith)
                    requires
                        t_clamped <= 100 && delta >= 0,
                ;
                assert(delta * t_clamped / 100 <= delta * 100 / 100) by (nonlinear_arith)
                    requires
                        delta * t_clamped <= delta * 100,
                ;
                assert(delta * 100 / 100 == delta) by (nonlinear_arith);
            }
        }
        start + step
    } else {
        let delta: u64 = start - end;
        let step: u64 = arith::mul_sat_u64(delta, t_clamped) / 100;
        proof {
            if delta * t_clamped > u64::MAX {
                assert(sat_mul_u64(delta, t_clamped) / 100 == u64::MAX as u64 / 100);
                assert(delta > u64::MAX / 100) by (nonlinear_arith)
                    requires
                        delta * t_clamped > u64::MAX && t_clamped <= 100,
                ;
            } else {
                assert(delta * t_clamped / 100 <= delta * 100 / 100) by (nonlinear_arith)
                    requires
                        t_clamped <= 100 && delta >= 0,
                ;
                assert(delta * 100 / 100 == delta) by (nonlinear_arith);
            }
            assert(step <= start);
        }
        start - step
    }
}

/// Fixed-point square root: the integer square root of the input scaled
/// by 100, by Babylonian iteration.
pub fn square_root(n: u64) -> (r: u64)
    requires
        n <= SQRT_INPUT_MAX,
    ensures
        is_isqrt(r as int, 100 * n),
        r == spec_isqrt(100 * n),
{
    let scaled: u64 = n * 100;
    if scaled == 0 {
        proof {
            assert(is_isqrt(0, 100 * n));
            assert(is_isqrt(spec_isqrt(100 * n), 100 * n));
            lemma_isqrt_unique(0, spec_isqrt(100 * n), 100 * n);
        }
        return 0;
    }
    let mut x: u64 = scaled;
    let mut y: u64 = (x + 1) / 2;
    proof {
        assert(x + scaled / x == x + 1) by {
            assert(scaled / scaled == 1) by (nonlinear_arith)
                requires
                    scaled >= 1,
            ;
        }
        assert((scaled + 1) * (scaled + 1) > scaled) by (nonlinear_arith)
            requires
                scaled >= 1,
        ;
    }
    while y < x
        invariant
            1 <= x <= scaled,
            scaled >= 1,
            scaled == 100 * n,
            scaled <= u64::MAX - 1,
            y == (x + scaled / x) / 2,
            (x + 1) * (x + 1) > scaled,
        decreases x,
    {
        proof {
            lemma_babylonian_step(x as int, scaled as int);
        }
        x = y;
        proof {
            assert(x + scaled / x <= u64::MAX) by {
                lemma_sum_with_quotient_bounded(x as int, scaled as int);
            }
        }
        y = (x + scaled / x) / 2;
    }
    proof {
        // On exit the candidate stopped shrinking, so its square is within
        // the scaled input.
        let q = scaled as int / x as int;
        assert(q >= x) by (nonlinear_arith)
            requires
                y >= x && y == (x + q) / 2 && x >= 1 && q >= 0,
        ;
        vstd::arithmetic::div_mod::lemma_fundamental_div_mod(scaled as int, x as int);
        assert(x * x <= scaled) by (nonlinear_arith)
            requires
                q >= x && scaled as int == q * x + scaled as int % x as int && scaled as int % x
                    as int >= 0,
        ;
        assert(is_isqrt(x as int, 100 * n));
        assert(is_isqrt(spec_isqrt(100 * n), 100 * n));
        lemma_isqrt_unique(x as int, spec_isqrt(100 * n), 100 * n);
    }
    x
}

/// One Babylonian step keeps the candidate at or above the true root:
/// if `(x+1)^2 > v` then the next candidate `y` also has `(y+1)^2 > v`.
proof fn lemma_babylonian_step(x: int, v: int)
    requires
        1 <= x,
        v >= 1,
    ensures
        ((x + v / x) / 2 + 1) * ((x + v / x) / 2 + 1) > v,
{
    let q = v / x;
    let y = (x + q) / 2;
    vstd::arithmetic::div_mod::lemma_fundamental_div_mod(v, x);
    vstd::arithmetic::div_mod::lemma_fundamental_div_mod(x + q, 2);
    assert(v < x * (q + 1)) by (nonlinear_arith)
        requires
            v == q * x + v % x && v % x < x && x >= 1,
    ;
    assert(x + q <= 2 * y + 1) by (nonlinear_arith)
        requires
            x + q == 2 * y + (x + q) % 2 && (x + q) % 2 < 2,
    ;
    assert(4 * (x * (q + 1)) <= (x + q + 1) * (x + q + 1)) by (nonlinear_arith);
    assert((x + q + 1) * (x + q + 1) <= (2 * y + 2) * (2 * y + 2)) by (nonlinear_arith)
        requires
            0 <= x + q + 1 <= 2 * y + 2,
    ;
    assert((2 * y + 2) * (2 * y + 2) == 4 * ((y + 1) * (y + 1))) by (nonlinear_arith);
    assert(4 * v < 4 * ((y + 1) * (y + 1)));
}

/// For `1 <= x <= v`, the Babylonian numerator `x + v/x` stays within
/// `v + 1`.
proof fn lemma_sum_with_quotient_bounded(x: int, v: int)
    requires
        1 <= x <= v,
    ensures
        x + v / x <= v + 1,
{
    let q = v / x;
    vstd::arithmetic::div_mod::lemma_fundamental_div_mod(v, x);
    assert(q >= 1) by (nonlinear_arith)
        requires
            v == q * x + v % x && 0 <= v % x < x && x <= v,
    ;
    assert(q + x - 1 <= q * x) by (nonlinear_arith)
        requires
            q >= 1 && x >= 1,
    ;
    assert(q * x <= v) by (nonlinear_arith)
        requires
            v == q * x + v % x && v % x >= 0,
    ;
}

} // verus!
