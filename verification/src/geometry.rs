//! 2-D vector algebra and point-in-shape predicates on scale-100
//! fixed-point scalars; boundaries are inclusive.
use vstd::prelude::*;

use crate::arith;
use crate::arith::sat_add_u64;
use crate::arith::sat_mul_i64;
use crate::arith::sat_mul_u64;
use crate::arith::sat_sub_i64;
use crate::arith::sat_sub_u64;
use crate::arith::i64_of_bits;
use crate::arith::trunc_div;
use crate::fixed;
use crate::fixed::spec_isqrt;
use crate::trig;
use crate::trig::spec_cos;
use crate::trig::spec_sin;

verus! {

/// The fixed-point squared distance between two points: each coordinate
/// difference is squared and renormalized, and the two squares are added
/// with saturation.
pub open spec fn spec_squared_distance(x1: u64, y1: u64, x2: u64, y2: u64) -> u64 {
    let dx = if x1 > x2 {
        (x1 - x2) as u64
    } else {
        (x2 - x1) as u64
    };
    let dy = if y1 > y2 {
        (y1 - y2) as u64
    } else {
        (y2 - y1) as u64
    };
    sat_add_u64((sat_mul_u64(dx, dx) / 100) as u64, (sat_mul_u64(dy, dy) / 100) as u64)
}

/// The fixed-point dot product of two vectors.
pub open spec fn spec_dot(vx1: u64, vy1: u64, vx2: u64, vy2: u64) -> u64 {
    sat_add_u64((sat_mul_u64(vx1, vx2) / 100) as u64, (sat_mul_u64(vy1, vy2) / 100) as u64)
}

pub fn squared_distance(x1: u64, y1: u64, x2: u64, y2: u64) -> (r: u64)
    ensures
        r == spec_squared_distance(x1, y1, x2, y2),
{
    let dx: u64 = if x1 > x2 {
        x1 - x2
    } else {
        x2 - x1
    };
    let dy: u64 = if y1 > y2 {
        y1 - y2
    } else {
        y2 - y1
    };
    let sq_dx: u64 = arith::mul_sat_u64(dx, dx) / 100;
    let sq_dy: u64 = arith::mul_sat_u64(dy, dy) / 100;
    arith::add_sat_u64(sq_dx, sq_dy)
}

/// The distance between two points: the fixed-point square root of the
/// squared distance.
pub fn distance_between(x1: u64, y1: u64, x2: u64, y2: u64) -> (r: u64)
    requires
        spec_squared_distance(x1, y1, x2, y2) <= fixed::SQRT_INPUT_MAX,
    ensures
        r == spec_isqrt(100 * spec_squared_distance(x1, y1, x2, y2)),
{
    let sq_dist: u64 = squared_distance(x1, y1, x2, y2);
    fixed::square_root(sq_dist)
}

pub fn dot_product(vx1: u64, vy1: u64, vx2: u64, vy2: u64) -> (r: u64)
    ensures
        r == spec_dot(vx1, vy1, vx2, vy2),
{
    let x_prod: u64 = arith::mul_sat_u64(vx1, vx2) / 100;
    let y_prod: u64 = arith::mul_sat_u64(vy1, vy2) / 100;
    arith::add_sat_u64(x_prod, y_prod)
}

/// The magnitude of a vector: the fixed-point square root of its dot
/// product with itself.
pub fn magnitude(vx: u64, vy: u64) -> (r: u64)
    requires
        spec_dot(vx, vy, vx, vy) <= fixed::SQRT_INPUT_MAX,
    ensures
        r == spec_isqrt(100 * spec_dot(vx, vy, vx, vy)),
{
    let dot_self: u64 = dot_product(vx, vy, vx, vy);
    fixed::square_root(dot_self)
}

/// The signed z-component of the 3-D cross product of two fixed-point
/// vectors.
pub fn cross_product(vx1: u64, vy1: u64, vx2: u64, vy2: u64) -> (r: i64)
    ensures
        r as int == sat_mul_u64(vx1, vy2) / 100 - sat_mul_u64(vy1, vx2) / 100,
{
    let term1: u64 = arith::mul_sat_u64(vx1, vy2) / 100;
    let term2: u64 = arith::mul_sat_u64(vy1, vx2) / 100;
    (term1 as i64) - (term2 as i64)
}

/// Rescale a vector down to a maximum length when its magnitude exceeds
/// it; shorter vectors pass through unchanged.
pub fn clamp_vector_magnitude(vx: u64, vy: u64, max_length: u64) -> (r: (u64, u64))
    requires
        spec_dot(vx, vy, vx, vy) <= fixed::SQRT_INPUT_MAX,
    ensures
        ({
            let mag = spec_isqrt(100 * spec_dot(vx, vy, vx, vy));
            if mag > max_length {
                let scale = (sat_mul_u64(max_length, 100) / (mag as u64)) as u64;
                r == (
                    (sat_mul_u64(vx, scale) / 100) as u64,
                    (sat_mul_u64(vy, scale) / 100) as u64,
                )
            } else {
                r == (vx, vy)
            }
        }),
{
    let mag: u64 = magnitude(vx, vy);
    if mag > max_length {
        let scale: u64 = fixed::div(max_length, mag);
        let new_vx: u64 = fixed::mul(vx, scale);
        let new_vy: u64 = fixed::mul(vy, scale);
        (new_vx, new_vy)
    } else {
        (vx, vy)
    }
}

/// Boundary-inclusive containment of a point in an axis-aligned
/// rectangle given by its corner and extent.
pub fn is_point_in_rect(px: u64, py: u64, rect_x: u64, rect_y: u64, rect_width: u64, rect_height: u64) -> (r:
    bool)
    ensures
        r == (px >= rect_x && px <= sat_add_u64(rect_x, rect_width) && py >= rect_y && py
            <= sat_add_u64(rect_y, rect_height)),
{
    px >= rect_x && px <= arith::add_sat_u64(rect_x, rect_width) && py >= rect_y && py
        <= arith::add_sat_u64(rect_y, rect_height)
}

/// Boundary-inclusive containment of a point in a circle, compared on
/// raw (unrenormalized) squared lengths.
pub fn is_point_in_circle(px: u64, py: u64, circle_cx: u64, circle_cy: u64, circle_radius: u64) -> (r: bool)
    ensures
        r == ({
            let dx = if px > circle_cx {
                (px - circle_cx) as u64
            } else {
                (circle_cx - px) as u64
            };
            let dy = if py > circle_cy {
                (py - circle_cy) as u64
            } else {
                (circle_cy - py) as u64
            };
            sat_add_u64(sat_mul_u64(dx, dx), sat_mul_u64(dy, dy)) <= sat_mul_u64(
                circle_radius,
                circle_radius,
            )
        }),
{
    let dx: u64 = if px > circle_cx {
        px - circle_cx
    } else {
        circle_cx - px
    };
    let dy: u64 = if py > circle_cy {
        py - circle_cy
    } else {
        circle_cy - py
    };
    let dx_sq: u64 = arith::mul_sat_u64(dx, dx);
    let dy_sq: u64 = arith::mul_sat_u64(dy, dy);
    let r_sq: u64 = arith::mul_sat_u64(circle_radius, circle_radius);
    arith::add_sat_u64(dx_sq, dy_sq) <= r_sq
}

pub fn add_vectors(vx1: u64, vy1: u64, vx2: u64, vy2: u64) -> (r: (u64, u64))
    ensures
        r == (sat_add_u64(vx1, vx2), sat_add_u64(vy1, vy2)),
{
    (arith::add_sat_u64(vx1, vx2), arith::add_sat_u64(vy1, vy2))
}

pub fn subtract_vectors(vx1: u64, vy1: u64, vx2: u64, vy2: u64) -> (r: (u64, u64))
    ensures
        r == (sat_sub_u64(vx1, vx2), sat_sub_u64(vy1, vy2)),
{
    (arith::sub_sat_u64(vx1, vx2), arith::sub_sat_u64(vy1, vy2))
}

pub fn scale_vector(vx: u64, vy: u64, scalar: u64) -> (r: (u64, u64))
    ensures
        r == ((sat_mul_u64(vx, scalar) / 100) as u64, (sat_mul_u64(vy, scalar) / 100) as u64),
{
    (fixed::mul(vx, scalar), fixed::mul(vy, scalar))
}

/// Scale a vector to unit fixed-point length by dividing by its
/// magnitude; the zero vector stays zero.
pub fn normalize_vector(vx: u64, vy: u64) -> (r: (u64, u64))
    requires
        spec_dot(vx, vy, vx, vy) <= fixed::SQRT_INPUT_MAX,
    ensures
        ({
            let mag = spec_isqrt(100 * spec_dot(vx, vy, vx, vy));
            if mag == 0 {
                r == (0u64, 0u64)
            } else {
                r == (
                    (sat_mul_u64(vx, 100) / mag as u64) as u64,
                    (sat_mul_u64(vy, 100) / mag as u64) as u64,
                )
            }
        }),
{
    let mag: u64 = magnitude(vx, vy);
    if mag == 0 {
        (0, 0)
    } else {
        (fixed::div(vx, mag), fixed::div(vy, mag))
    }
}

/// Apply the 2-D rotation matrix for an angle in tenths of a degree,
/// with fixed-point sine and cosine entries; the components are
/// reinterpreted as signed words.
pub fn rotate_vector(vx: u64, vy: u64, angle_deg_times_10: u32) -> (r: (i64, i64))
    ensures
        r.0 as int == trunc_div(
            sat_mul_i64((i64_of_bits(vx) as i64), (spec_cos(angle_deg_times_10) as i64)) as int,
            100,
        ) - trunc_div(
            sat_mul_i64((i64_of_bits(vy) as i64), (spec_sin(angle_deg_times_10) as i64)) as int,
            100,
        ),
        r.1 as int == trunc_div(
            sat_mul_i64((i64_of_bits(vx) as i64), (spec_sin(angle_deg_times_10) as i64)) as int,
            100,
        ) + trunc_div(
            sat_mul_i64((i64_of_bits(vy) as i64), (spec_cos(angle_deg_times_10) as i64)) as int,
            100,
        ),
{
    let vx_i: i64 = arith::to_i64_bits(vx);
    let vy_i: i64 = arith::to_i64_bits(vy);
    let cos_a: i64 = trig::cos(angle_deg_times_10);
    let sin_a: i64 = trig::sin(angle_deg_times_10);
    let xc: i64 = arith::div100_i64(arith::mul_sat_i64(vx_i, cos_a));
    let xs: i64 = arith::div100_i64(arith::mul_sat_i64(vx_i, sin_a));
    let yc: i64 = arith::div100_i64(arith::mul_sat_i64(vy_i, cos_a));
    let ys: i64 = arith::div100_i64(arith::mul_sat_i64(vy_i, sin_a));
    (xc - ys, xs + yc)
}

/// Reflect a vector about a normal: `v - 2 (v . n) n` in fixed-point
/// arithmetic.
pub fn reflect_vector(vx: u64, vy: u64, normal_x: u64, normal_y: u64) -> (r: (i64, i64))
    requires
        vx <= i64::MAX,
        vy <= i64::MAX,
        normal_x <= i64::MAX,
        normal_y <= i64::MAX,
        spec_dot(vx, vy, normal_x, normal_y) < 0x4000_0000_0000_0000,
    ensures
        ({
            let twice_dot = 2 * spec_dot(vx, vy, normal_x, normal_y) as int;
            &&& r.0 as int == vx - trunc_div(sat_mul_i64(normal_x as i64, twice_dot as i64) as int, 100)
            &&& r.1 as int == vy - trunc_div(sat_mul_i64(normal_y as i64, twice_dot as i64) as int, 100)
        }),
{
    let dot_vn: u64 = dot_product(vx, vy, normal_x, normal_y);
    let twice: i64 = 2 * (dot_vn as i64);
    let change_x: i64 = arith::div100_i64(arith::mul_sat_i64(normal_x as i64, twice));
    let change_y: i64 = arith::div100_i64(arith::mul_sat_i64(normal_y as i64, twice));
    let reflected_vx: i64 = (vx as i64) - change_x;
    let reflected_vy: i64 = (vy as i64) - change_y;
    proof {
        assert(trunc_div(sat_mul_i64(normal_x as i64, twice) as int, 100) >= 0) by {
            assert(sat_mul_i64(normal_x as i64, twice) >= 0) by (nonlinear_arith)
                requires
                    normal_x as i64 >= 0 && twice >= 0,
            ;
        }
        assert(trunc_div(sat_mul_i64(normal_y as i64, twice) as int, 100) >= 0) by {
            assert(sat_mul_i64(normal_y as i64, twice) >= 0) by (nonlinear_arith)
                requires
                    normal_y as i64 >= 0 && twice >= 0,
            ;
        }
    }
    (reflected_vx, reflected_vy)
}

/// The saturating edge cross product used by the triangle test: the
/// z-component of `(b - a) x (p - a)`.
pub open spec fn spec_edge_cross(ax: u64, ay: u64, bx: u64, by: u64, px: u64, py: u64) -> i64
    recommends
        ax <= i64::MAX,
        ay <= i64::MAX,
        bx <= i64::MAX,
        by <= i64::MAX,
        px <= i64::MAX,
        py <= i64::MAX,
{
    sat_sub_i64(
        sat_mul_i64((bx - ax) as i64, (py - ay) as i64),
        sat_mul_i64((by - ay) as i64, (px - ax) as i64),
    )
}

/// Boundary-inclusive containment of a point in a triangle by the
/// three-edge cross-product test; clockwise and counter-clockwise vertex
/// orders both count as inside.
pub fn is_point_in_triangle(
    px: u64,
    py: u64,
    ax: u64,
    ay: u64,
    bx: u64,
    by: u64,
    cx: u64,
    cy: u64,
) -> (r: bool)
    requires
        px <= i64::MAX,
        py <= i64::MAX,
        ax <= i64::MAX,
        ay <= i64::MAX,
        bx <= i64::MAX,
        by <= i64::MAX,
        cx <= i64::MAX,
        cy <= i64::MAX,
    ensures
        r == ({
            let c1 = spec_edge_cross(ax, ay, bx, by, px, py);
            let c2 = spec_edge_cross(bx, by, cx, cy, px, py);
            let c3 = spec_edge_cross(cx, cy, ax, ay, px, py);
            (c1 >= 0 && c2 >= 0 && c3 >= 0) || (c1 <= 0 && c2 <= 0 && c3 <= 0)
        }),
{
    let px_i: i64 = px as i64;
    let py_i: i64 = py as i64;
    let ax_i: i64 = ax as i64;
    let ay_i: i64 = ay as i64;
    let bx_i: i64 = bx as i64;
    let by_i: i64 = by as i64;
    let cx_i: i64 = cx as i64;
    let cy_i: i64 = cy as i64;

    let cross1: i64 = arith::sub_sat_i64(
        arith::mul_sat_i64(bx_i - ax_i, py_i - ay_i),
        arith::mul_sat_i64(by_i - ay_i, px_i - ax_i),
    );
    let cross2: i64 = arith::sub_sat_i64(
        arith::mul_sat_i64(cx_i - bx_i, py_i - by_i),
        arith::mul_sat_i64(cy_i - by_i, px_i - bx_i),
    );
    let cross3: i64 = arith::sub_sat_i64(
        arith::mul_sat_i64(ax_i - cx_i, py_i - cy_i),
        arith::mul_sat_i64(ay_i - cy_i, px_i - cx_i),
    );

    let all_non_negative: bool = cross1 >= 0 && cross2 >= 0 && cross3 >= 0;
    let all_non_positive: bool = cross1 <= 0 && cross2 <= 0 && cross3 <= 0;

    all_non_negative || all_non_positive
}

} // verus!
