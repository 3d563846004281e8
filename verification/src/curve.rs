//! Affine elliptic-curve point arithmetic over a prime field, in
//! short-Weierstrass form with coefficient `a`; the `b` coefficient only
//! matters for on-curve validation, which these operations do not do.
//! A failed modular inverse (a non-prime or degenerate modulus) is
//! reported as nothing.
use vstd::prelude::*;

use crate::arith;
use crate::numtheory;
use crate::numtheory::spec_gcd;
use crate::numtheory::spec_inv_mod;

verus! {

/// An affine curve point: the additive identity, or a coordinate pair in
/// the field.
#[derive(Debug, Copy, Clone, PartialEq, Eq, Structural)]
pub enum Point {
    Infinity,
    Coordinate { x: u64, y: u64 },
}

/// A point is well-formed for a modulus when its coordinates are field
/// elements; the identity always is, and a zero modulus constrains
/// nothing.
pub open spec fn point_wf(p: Point, modulus: u64) -> bool {
    match p {
        Point::Infinity => true,
        Point::Coordinate { x, y } => modulus == 0 || (x < modulus && y < modulus),
    }
}

/// The tangent slope at a finite point, given the inverse of `2y`.
pub open spec fn spec_tangent_slope(x: int, a: int, m: int, inv: int) -> int {
    ((((3 * ((x * x) % m)) % m + a) % m) * inv) % m
}

/// The doubled point's coordinates from the tangent slope.
pub open spec fn spec_double_coords(x: int, y: int, a: int, m: int, inv: int) -> (int, int) {
    let l = spec_tangent_slope(x, a, m, inv);
    let xr = (((l * l) % m) + m - ((2 * x) % m)) % m;
    let yr = (((l * ((x + m - xr) % m)) % m) + m - y) % m;
    (xr, yr)
}

/// The curve doubling map: the identity and tangent-vertical points
/// double to the identity, and a point whose `2y` is not invertible has
/// no double.
pub open spec fn spec_point_double(p: Point, a: u64, m: u64) -> Option<Point> {
    match p {
        Point::Infinity => Some(Point::Infinity),
        Point::Coordinate { x, y } => {
            if y == 0 || m == 0 {
                Some(Point::Infinity)
            } else {
                let c = (2 * y) % (m as int);
                if spec_gcd(c as nat, m as nat) != 1 {
                    None
                } else {
                    let inv = spec_inv_mod(c as nat, m as nat) as int;
                    let coords = spec_double_coords(x as int, y as int, a as int, m as int, inv);
                    Some(Point::Coordinate { x: coords.0 as u64, y: coords.1 as u64 })
                }
            }
        },
    }
}

/// The secant slope between two finite points with distinct abscissas,
/// given the inverse of their abscissa difference.
pub open spec fn spec_secant_slope(x1: int, y1: int, x2: int, y2: int, m: int, inv: int) -> int {
    (((y2 + m - y1) % m) * inv) % m
}

/// The sum's coordinates from the secant slope.
pub open spec fn spec_add_coords(x1: int, y1: int, x2: int, y2: int, m: int, inv: int) -> (
    int,
    int,
) {
    let l = spec_secant_slope(x1, y1, x2, y2, m, inv);
    let xr = (((l * l) % m) + m - ((x1 + x2) % m)) % m;
    let yr = (((l * ((x1 + m - xr) % m)) % m) + m - y1) % m;
    (xr, yr)
}

/// The curve addition map: the identity is neutral on either side, equal
/// abscissas either double (equal ordinates) or annihilate to the
/// identity, and otherwise the secant-slope formula applies when the
/// abscissa difference is invertible.
pub open spec fn spec_point_add(p1: Point, p2: Point, a: u64, m: u64) -> Option<Point> {
    if m == 0 {
        None
    } else {
        match (p1, p2) {
            (Point::Infinity, _) => Some(p2),
            (_, Point::Infinity) => Some(p1),
            (Point::Coordinate { x: x1, y: y1 }, Point::Coordinate { x: x2, y: y2 }) => {
                if x1 == x2 {
                    if y1 == y2 {
                        spec_point_double(p1, a, m)
                    } else {
                        Some(Point::Infinity)
                    }
                } else {
                    let c = (x2 + m - x1) % (m as int);
                    if spec_gcd(c as nat, m as nat) != 1 {
                        None
                    } else {
                        let inv = spec_inv_mod(c as nat, m as nat) as int;
                        let coords = spec_add_coords(
                            x1 as int,
                            y1 as int,
                            x2 as int,
                            y2 as int,
                            m as int,
                            inv,
                        );
                        Some(Point::Coordinate { x: coords.0 as u64, y: coords.1 as u64 })
                    }
                }
            },
        }
    }
}

/// Double a curve point.
pub fn point_double(p: Point, a: u64, modulus: u64) -> (r: Option<Point>)
    requires
        point_wf(p, modulus),
    ensures
        r == spec_point_double(p, a, modulus),
{
    match p {
        Point::Infinity => Some(Point::Infinity),
        Point::Coordinate { x, y } => {
            if y == 0 || modulus == 0 {
                return Some(Point::Infinity);
            }
            let c: u64 = arith::mul_mod_u64(2, y, modulus);
            proof {
                vstd::arithmetic::div_mod::lemma_mul_mod_noop_left(2, y as int, modulus as int);
            }
            let inv_opt = numtheory::modinv_u64(c, modulus);
            match inv_opt {
                None => None,
                Some(inv) => {
                    proof {
                        numtheory::lemma_inv_matches_spec(c as nat, modulus as nat, inv as nat);
                    }
                    let m128: u128 = modulus as u128;
                    let x_sq: u64 = arith::mul_mod_u64(x, x, modulus);
                    let three_x_sq: u64 = arith::mul_mod_u64(3, x_sq, modulus);
                    let t: u64 = (((three_x_sq as u128) + (a as u128)) % m128) as u64;
                    let lambda: u64 = arith::mul_mod_u64(t, inv, modulus);
                    let lambda_sq: u64 = arith::mul_mod_u64(lambda, lambda, modulus);
                    let two_x: u64 = arith::mul_mod_u64(2, x, modulus);
                    let x_r: u64 = (((lambda_sq as u128) + m128 - (two_x as u128)) % m128) as u64;
                    let x_diff: u64 = (((x as u128) + m128 - (x_r as u128)) % m128) as u64;
                    let y_r: u64 = (((arith::mul_mod_u64(lambda, x_diff, modulus) as u128) + m128
                        - (y as u128)) % m128) as u64;
                    proof {
                        let mi = modulus as int;
                        let inv_i = inv as int;
                        vstd::arithmetic::div_mod::lemma_mul_mod_noop_left(
                            3 * ((x as int * x as int) % mi),
                            1,
                            mi,
                        );
                        assert(three_x_sq as int == (3 * ((x as int * x as int) % mi)) % mi) by {
                            vstd::arithmetic::div_mod::lemma_mul_mod_noop_right(
                                3,
                                (x as int * x as int) % mi,
                                mi,
                            );
                            vstd::arithmetic::div_mod::lemma_mul_mod_noop_right(
                                3,
                                x as int * x as int,
                                mi,
                            );
                        }
                        assert(lambda as int == spec_tangent_slope(x as int, a as int, mi, inv_i));
                        assert((x_r as int, y_r as int) == spec_double_coords(
                            x as int,
                            y as int,
                            a as int,
                            mi,
                            inv_i,
                        )) by {
                            assert(two_x as int == (2 * x as int) % mi) by {
                                vstd::arithmetic::div_mod::lemma_mul_mod_noop_left(
                                    2,
                                    x as int,
                                    mi,
                                );
                            }
                            assert(lambda_sq as int == (lambda as int * lambda as int) % mi);
                        }
                    }
                    Some(Point::Coordinate { x: x_r, y: y_r })
                },
            }
        },
    }
}

/// Add two curve points.
pub fn point_add(p1: Point, p2: Point, a: u64, modulus: u64) -> (r: Option<Point>)
    requires
        point_wf(p1, modulus),
        point_wf(p2, modulus),
    ensures
        r == spec_point_add(p1, p2, a, modulus),
{
    if modulus == 0 {
        return None;
    }
    match (p1, p2) {
        (Point::Infinity, _) => Some(p2),
        (_, Point::Infinity) => Some(p1),
        (Point::Coordinate { x: x1, y: y1 }, Point::Coordinate { x: x2, y: y2 }) => {
            if x1 == x2 {
                if y1 == y2 {
                    return point_double(p1, a, modulus);
                } else {
                    return Some(Point::Infinity);
                }
            }
            let m128: u128 = modulus as u128;
            let x_diff: u64 = (((x2 as u128) + m128 - (x1 as u128)) % m128) as u64;
            let inv_opt = numtheory::modinv_u64(x_diff, modulus);
            match inv_opt {
                None => None,
                Some(inv) => {
                    proof {
                        numtheory::lemma_inv_matches_spec(x_diff as nat, modulus as nat, inv as nat);
                    }
                    let y_diff: u64 = (((y2 as u128) + m128 - (y1 as u128)) % m128) as u64;
                    let lambda: u64 = arith::mul_mod_u64(y_diff, inv, modulus);
                    let lambda_sq: u64 = arith::mul_mod_u64(lambda, lambda, modulus);
                    let x_sum: u64 = (((x1 as u128) + (x2 as u128)) % m128) as u64;
                    let x_r: u64 = (((lambda_sq as u128) + m128 - (x_sum as u128)) % m128) as u64;
                    let x_back: u64 = (((x1 as u128) + m128 - (x_r as u128)) % m128) as u64;
                    let y_r: u64 = (((arith::mul_mod_u64(lambda, x_back, modulus) as u128) + m128
                        - (y1 as u128)) % m128) as u64;
                    proof {
                        let mi = modulus as int;
                        assert(lambda as int == spec_secant_slope(
                            x1 as int,
                            y1 as int,
                            x2 as int,
                            y2 as int,
                            mi,
                            inv as int,
                        ));
                        assert((x_r as int, y_r as int) == spec_add_coords(
                            x1 as int,
                            y1 as int,
                            x2 as int,
                            y2 as int,
                            mi,
                            inv as int,
                        ));
                    }
                    Some(Point::Coordinate { x: x_r, y: y_r })
                },
            }
        },
    }
}


/// The identity is neutral for curve addition on either side, for any
/// positive modulus.
pub proof fn lemma_point_add_identity(p: Point, a: u64, m: u64)
    requires
        m > 0,
    ensures
        spec_point_add(Point::Infinity, p, a, m) == Some(p),
        spec_point_add(p, Point::Infinity, a, m) == Some(p),
{
}

/// Adding a finite point to itself takes the doubling path: the two
/// curve operations agree there.
pub proof fn lemma_point_add_self_doubles(p: Point, a: u64, m: u64)
    requires
        m > 0,
        p matches Point::Coordinate { x, y },
    ensures
        spec_point_add(p, p, a, m) == spec_point_double(p, a, m),
{
}

} // verus!
