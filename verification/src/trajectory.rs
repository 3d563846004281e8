//! Projectile trajectory coefficients: two fixed-point values `(c1, c2)`
//! describing the parabola `y = c1 x + c2 x^2` for a launch angle,
//! initial speed and gravity; vertical launches report sentinels.
use vstd::prelude::*;

use crate::arith;
use crate::arith::i64_of_bits;
use crate::arith::sat_mul_i64;
use crate::arith::sat_mul_u64;
use crate::arith::trunc_div;
use crate::arith::wrap_i64;
use crate::fixed;
use crate::trig;
use crate::trig::spec_cos;
use crate::trig::spec_sin;

verus! {

/// Signed fixed-point multiply: the 128-bit product renormalized by 100,
/// truncated to the 64-bit word.
pub open spec fn spec_mul_signed(a: int, b: int) -> int {
    wrap_i64(trunc_div(a * b, 100))
}

/// Signed fixed-point divide: the maximum sentinel for a zero divisor,
/// else the scaled quotient truncated to the 64-bit word.
pub open spec fn spec_div_signed(a: int, b: int) -> int {
    if b == 0 {
        i64::MAX as int
    } else {
        wrap_i64(trunc_div(a * 100, b))
    }
}

/// Truncate a 128-bit value to the 64-bit signed word.
fn wrap_i128_to_i64(v: i128) -> (r: i64)
    requires
        -0x4000_0000_0000_0000_0000_0000_0000_0000 <= v
            <= 0x4000_0000_0000_0000_0000_0000_0000_0000,
    ensures
        r as int == wrap_i64(v as int),
{
    let m: i128 = 0x1_0000_0000_0000_0000;
    let neg_v: bool = v < 0;
    let abs_v: i128 = if v < 0 {
        -v
    } else {
        v
    };
    let t: i128 = abs_v % m;
    let rpos: i128 = if !neg_v {
        t
    } else if t == 0 {
        0
    } else {
        m - t
    };
    proof {
        let vi = v as int;
        let mi = m as int;
        vstd::arithmetic::div_mod::lemma_fundamental_div_mod(abs_v as int, mi);
        let k = abs_v as int / mi;
        assert(abs_v as int == mi * k + t);
        if !neg_v {
            assert(rpos as int == vi % mi);
        } else {
            assert(vi == -(abs_v as int));
            if t == 0 {
                assert(vi == (-k) * mi) by (nonlinear_arith)
                    requires
                        vi == -(abs_v as int) && abs_v as int == mi * k + t && t == 0,
                ;
                vstd::arithmetic::div_mod::lemma_mod_multiples_basic(-k, mi);
            } else {
                assert(vi == (-k - 1) * mi + (mi - t)) by (nonlinear_arith)
                    requires
                        vi == -(abs_v as int) && abs_v as int == mi * k + t,
                ;
                vstd::arithmetic::div_mod::lemma_fundamental_div_mod_converse(
                    vi,
                    mi,
                    -k - 1,
                    mi - t,
                );
            }
        }
        assert(0 <= rpos < m);
        assert(rpos as int == vi % mi);
    }
    let lo: u64 = rpos as u64;
    arith::to_i64_bits(lo)
}

/// Signed fixed-point multiplication, scaled by 100.
pub fn mul_signed(a: i64, b: i64) -> (r: i64)
    ensures
        r as int == spec_mul_signed(a as int, b as int),
{
    proof {
        assert((a as i128) * (b as i128) <= i128::MAX && (a as i128) * (b as i128) >= i128::MIN
            && -0x4000_0000_0000_0000_0000_0000_0000_0000 <= (a as int) * (b as int)
            <= 0x4000_0000_0000_0000_0000_0000_0000_0000) by (nonlinear_arith)
            requires
                -0x8000_0000_0000_0000 <= a <= 0x7FFF_FFFF_FFFF_FFFF && -0x8000_0000_0000_0000
                    <= b <= 0x7FFF_FFFF_FFFF_FFFF,
        ;
    }
    let p: i128 = (a as i128) * (b as i128);
    let q: i128 = arith::tdiv_i128(p, 100);
    wrap_i128_to_i64(q)
}

/// Signed fixed-point division, scaled by 100; a zero divisor reports
/// the maximum sentinel.
pub fn div_signed(a: i64, b: i64) -> (r: i64)
    ensures
        r as int == spec_div_signed(a as int, b as int),
{
    if b == 0 {
        return i64::MAX;
    }
    proof {
        assert(-0x4000_0000_0000_0000_0000_0000_0000_0000 <= (a as int) * 100
            <= 0x4000_0000_0000_0000_0000_0000_0000_0000) by (nonlinear_arith)
            requires
                -0x8000_0000_0000_0000 <= a <= 0x7FFF_FFFF_FFFF_FFFF,
        ;
    }
    let p: i128 = (a as i128) * 100;
    let q: i128 = arith::tdiv_i128(p, b as i128);
    wrap_i128_to_i64(q)
}

/// Signed fixed-point square, scaled by 100.
pub fn square_signed(a: i64) -> (r: i64)
    ensures
        r as int == spec_mul_signed(a as int, a as int),
{
    mul_signed(a, a)
}

/// The trajectory coefficient pair as values; gravity is reinterpreted
/// as a signed word and negated.
pub open spec fn spec_trajectory(angle: u32, initial_velocity: u64, gravity: u64) -> (int, int) {
    let s = spec_sin(angle);
    let c = spec_cos(angle);
    let c1 = if c == 0 {
        i64::MAX as int
    } else {
        spec_div_signed(s, c)
    };
    let v0_sq = sat_mul_u64(initial_velocity, initial_velocity) / 100;
    let denom = sat_mul_i64(spec_mul_signed(v0_sq as int, spec_mul_signed(c, c)) as i64, 2);
    let c2 = if denom == 0 {
        i64::MIN as int
    } else {
        spec_div_signed(-i64_of_bits(gravity), denom as int)
    };
    if c1 == i64::MAX as int {
        (c1, 0int)
    } else {
        (c1, c2)
    }
}

/// Derive the two trajectory coefficients. The first is the fixed-point
/// tangent of the launch angle, or the maximum sentinel for a vertical
/// launch; the second scales gravity against twice the squared
/// horizontal speed, reported as the minimum sentinel when that
/// denominator vanishes and forced to zero for vertical launches.
pub fn get_projectile_trajectory_coefficients(
    angle_deg_times_10: u32,
    initial_velocity: u64,
    gravity: u64,
) -> (r: (i64, i64))
    requires
        gravity != 0x8000_0000_0000_0000u64,
    ensures
        r.0 as int == spec_trajectory(angle_deg_times_10, initial_velocity, gravity).0,
        r.1 as int == spec_trajectory(angle_deg_times_10, initial_velocity, gravity).1,
{
    let sin_val: i64 = trig::sin(angle_deg_times_10);
    let cos_val: i64 = trig::cos(angle_deg_times_10);

    let c1: i64 = if cos_val == 0 {
        i64::MAX
    } else {
        div_signed(sin_val, cos_val)
    };

    let v0_squared: u64 = fixed::square(initial_velocity);
    let cos_squared: i64 = square_signed(cos_val);
    proof {
        assert(v0_squared <= u64::MAX as u64 / 100);
    }
    let denom_part1: i64 = mul_signed(v0_squared as i64, cos_squared);
    let denominator: i64 = arith::mul_sat_i64(denom_part1, 2);

    let c2: i64 = if denominator == 0 {
        i64::MIN
    } else {
        div_signed(-(arith::to_i64_bits(gravity)), denominator)
    };

    if c1 == i64::MAX {
        (c1, 0)
    } else {
        (c1, c2)
    }
}

} // verus!
