//! The dispatcher: maps a 4-byte big-endian selector to one engine
//! operation, decoding fixed-position 32-byte argument words and
//! encoding the result words. Unknown selectors answer with a single
//! all-zero word. An operation whose inputs would make the engine trap
//! yields no result at all: the invocation cannot return, which the
//! host must treat as an unrecoverable fault.
use vstd::prelude::*;

use vstd::arithmetic::power::pow;

use crate::arith;
use crate::arith::i64_of_bits;
use crate::arith::sat_add_u64;
use crate::arith::sat_mul_u64;
use crate::arith::sat_sub_u64;
use crate::bits;
use crate::bits::clmul_below;
use crate::bits::count_bits_from;
use crate::bits::rev_step;
use crate::codec;
use crate::codec::arith_bits_of_i64;
use crate::codec::spec_bool_word;
use crate::codec::spec_decode_point;
use crate::codec::spec_point_words;
use crate::codec::spec_u32_word;
use crate::codec::spec_u64_word;
use crate::codec::spec_zero_word;
use crate::codec::word_u32;
use crate::codec::word_u64;
use crate::curve;
use crate::curve::Point;
use crate::curve::point_wf;
use crate::curve::spec_point_add;
use crate::curve::spec_point_double;
use crate::fixed;
use crate::fixed::spec_isqrt;
use crate::fixed::spec_lerp;
use crate::geometry;
use crate::geometry::spec_dot;
use crate::geometry::spec_edge_cross;
use crate::geometry::spec_squared_distance;
use crate::numtheory;
use crate::numtheory::phi_loop;
use crate::numtheory::spec_fact;
use crate::numtheory::spec_gcd;
use crate::numtheory::spec_is_prime;
use crate::numtheory::spec_log10_floor;
use crate::numtheory::spec_log2_floor;
use crate::numtheory::spec_modinv;
use crate::numtheory::nck_iter;
use crate::stream::Xorshift64Star;
use crate::stream::xs_output;
use crate::stream::xs_shift;
use crate::trajectory;
use crate::trajectory::spec_trajectory;
use crate::trig;
use crate::trig::spec_cos;
use crate::trig::spec_sin;

verus! {

/// Byte `j` of the call data, with reads past the end giving zero: the
/// host hands over a zero-filled buffer for out-of-range copies.
pub open spec fn calldata_byte(data: Seq<u8>, j: int) -> u8 {
    if 0 <= j < data.len() {
        data[j]
    } else {
        0
    }
}

/// Argument word `idx`: the 32 bytes at offset `4 + 32 * idx`,
/// zero-padded past the end of the call data.
pub open spec fn word_seq(data: Seq<u8>, idx: int) -> Seq<u8> {
    Seq::new(32, |k: int| calldata_byte(data, 4 + 32 * idx + k))
}

/// The 64-bit scalar carried by argument word `idx`.
pub open spec fn arg_u64(data: Seq<u8>, idx: int) -> u64 {
    word_u64(word_seq(data, idx)) as u64
}

/// The 32-bit scalar carried by argument word `idx`.
pub open spec fn arg_u32(data: Seq<u8>, idx: int) -> u32 {
    word_u32(word_seq(data, idx)) as u32
}

/// The signed scalar carried by argument word `idx`.
pub open spec fn arg_i64(data: Seq<u8>, idx: int) -> int {
    i64_of_bits(arg_u64(data, idx))
}

/// The 4-byte big-endian selector at the head of the call data.
pub open spec fn selector_of(data: Seq<u8>) -> int {
    calldata_byte(data, 0) * 0x100_0000 + calldata_byte(data, 1) * 0x1_0000 + calldata_byte(
        data,
        2,
    ) * 0x100 + calldata_byte(data, 3)
}

/// An actual response agrees with a specified one: both absent (a
/// fault), or both present with the same bytes.
pub open spec fn matches_response(r: Option<Vec<u8>>, resp: Option<Seq<u8>>) -> bool {
    match r {
        Some(v) => resp is Some && v@ == resp->Some_0,
        None => resp is None,
    }
}

/// Read argument word `idx` from the raw call data, zero-padding past
/// its end.
pub fn read_word(data: &[u8], idx: usize) -> (r: Vec<u8>)
    requires
        idx <= 16,
    ensures
        r@ =~= word_seq(data@, idx as int),
        r@.len() == 32,
{
    let mut out: Vec<u8> = Vec::new();
    let mut k: usize = 0;
    let base: usize = 4 + 32 * idx;
    while k < 32
        invariant
            k <= 32,
            idx <= 16,
            base == 4 + 32 * idx,
            out@.len() == k,
            forall|j: int| 0 <= j < k ==> out@[j] == calldata_byte(data@, 4 + 32 * (idx as int) + j),
        decreases 32 - k,
    {
        if base + k < data.len() {
            out.push(data[base + k]);
        } else {
            out.push(0);
        }
        k = k + 1;
    }
    out
}

/// Read the selector from the head of the call data, zero-padding a
/// short buffer.
pub fn read_selector(data: &[u8]) -> (r: u32)
    ensures
        r == selector_of(data@),
{
    let mut acc: u32 = 0;
    let mut k: usize = 0;
    while k < 4
        invariant
            k <= 4,
            acc == ({
                let d = data@;
                if k == 0 {
                    0int
                } else if k == 1 {
                    calldata_byte(d, 0) as int
                } else if k == 2 {
                    calldata_byte(d, 0) * 0x100 + calldata_byte(d, 1)
                } else if k == 3 {
                    calldata_byte(d, 0) * 0x1_0000 + calldata_byte(d, 1) * 0x100 + calldata_byte(
                        d,
                        2,
                    )
                } else {
                    selector_of(d)
                }
            }),
        decreases 4 - k,
    {
        let b: u8 = if k < data.len() {
            data[k]
        } else {
            0
        };
        acc = acc * 256 + (b as u32);
        k = k + 1;
    }
    acc
}

/// The modular-exponentiation response; a zero modulus word is the one
/// input on which the engine cannot answer.
pub open spec fn modexp_response(data: Seq<u8>) -> Option<Seq<u8>> {
    let m = arg_u64(data, 2);
    if m == 0 {
        None
    } else {
        Some(
            spec_u64_word(
                ((pow(arg_u64(data, 0) as int, arg_u64(data, 1) as nat) % (m as int)) as u64),
            ),
        )
    }
}

pub fn modexp_handler(data: &[u8]) -> (r: Option<Vec<u8>>)
    ensures
        matches_response(r, modexp_response(data@)),
{
    let w0 = read_word(data, 0);
    let w1 = read_word(data, 1);
    let w2 = read_word(data, 2);
    let base: u64 = codec::u64_from_abi_word(w0.as_slice());
    let exp: u64 = codec::u64_from_abi_word(w1.as_slice());
    let modu: u64 = codec::u64_from_abi_word(w2.as_slice());
    if modu == 0 {
        return None;
    }
    Some(codec::u64_to_abi_word(numtheory::modexp(base, exp, modu)))
}

pub open spec fn square_response(data: Seq<u8>) -> Seq<u8> {
    spec_u64_word(((sat_mul_u64(arg_u64(data, 0), arg_u64(data, 0)) / 100) as u64))
}

pub fn square_handler(data: &[u8]) -> (r: Vec<u8>)
    ensures
        r@ == square_response(data@),
{
    let w0 = read_word(data, 0);
    let n: u64 = codec::u64_from_abi_word(w0.as_slice());
    codec::u64_to_abi_word(fixed::square(n))
}

/// The square-root response; inputs whose scaling overflows the word
/// have no answer.
pub open spec fn square_root_response(data: Seq<u8>) -> Option<Seq<u8>> {
    let n = arg_u64(data, 0);
    if n > fixed::SQRT_INPUT_MAX {
        None
    } else {
        Some(spec_u64_word((spec_isqrt(100 * n) as u64)))
    }
}

pub fn square_root_handler(data: &[u8]) -> (r: Option<Vec<u8>>)
    ensures
        matches_response(r, square_root_response(data@)),
{
    let w0 = read_word(data, 0);
    let n: u64 = codec::u64_from_abi_word(w0.as_slice());
    if n > fixed::SQRT_INPUT_MAX {
        return None;
    }
    Some(codec::u64_to_abi_word(fixed::square_root(n)))
}

pub open spec fn mul_response(data: Seq<u8>) -> Seq<u8> {
    spec_u64_word(((sat_mul_u64(arg_u64(data, 0), arg_u64(data, 1)) / 100) as u64))
}

pub fn mul_handler(data: &[u8]) -> (r: Vec<u8>)
    ensures
        r@ == mul_response(data@),
{
    let w0 = read_word(data, 0);
    let w1 = read_word(data, 1);
    let a: u64 = codec::u64_from_abi_word(w0.as_slice());
    let b: u64 = codec::u64_from_abi_word(w1.as_slice());
    codec::u64_to_abi_word(fixed::mul(a, b))
}

pub open spec fn div_response(data: Seq<u8>) -> Seq<u8> {
    let b = arg_u64(data, 1);
    if b == 0 {
        spec_u64_word(0)
    } else {
        spec_u64_word(((sat_mul_u64(arg_u64(data, 0), 100) / b) as u64))
    }
}

pub fn div_handler(data: &[u8]) -> (r: Vec<u8>)
    ensures
        r@ == div_response(data@),
{
    let w0 = read_word(data, 0);
    let w1 = read_word(data, 1);
    let a: u64 = codec::u64_from_abi_word(w0.as_slice());
    let b: u64 = codec::u64_from_abi_word(w1.as_slice());
    codec::u64_to_abi_word(fixed::div(a, b))
}

pub open spec fn lerp_response(data: Seq<u8>) -> Seq<u8> {
    spec_u64_word((spec_lerp(arg_u64(data, 0), arg_u64(data, 1), arg_u64(data, 2)) as u64))
}

pub fn lerp_handler(data: &[u8]) -> (r: Vec<u8>)
    ensures
        r@ == lerp_response(data@),
{
    let w0 = read_word(data, 0);
    let w1 = read_word(data, 1);
    let w2 = read_word(data, 2);
    let start: u64 = codec::u64_from_abi_word(w0.as_slice());
    let end: u64 = codec::u64_from_abi_word(w1.as_slice());
    let t: u64 = codec::u64_from_abi_word(w2.as_slice());
    codec::u64_to_abi_word(fixed::lerp(start, end, t))
}

pub open spec fn sin_response(data: Seq<u8>) -> Seq<u8> {
    spec_u64_word(arith_bits_of_i64((spec_sin(arg_u32(data, 0)) as i64)))
}

pub fn sin_handler(data: &[u8]) -> (r: Vec<u8>)
    ensures
        r@ == sin_response(data@),
{
    let w0 = read_word(data, 0);
    let angle: u32 = codec::u32_from_abi_word(w0.as_slice());
    codec::i64_to_abi_word(trig::sin(angle))
}

pub open spec fn cos_response(data: Seq<u8>) -> Seq<u8> {
    spec_u64_word(arith_bits_of_i64((spec_cos(arg_u32(data, 0)) as i64)))
}

pub fn cos_handler(data: &[u8]) -> (r: Vec<u8>)
    ensures
        r@ == cos_response(data@),
{
    let w0 = read_word(data, 0);
    let angle: u32 = codec::u32_from_abi_word(w0.as_slice());
    codec::i64_to_abi_word(trig::cos(angle))
}

pub open spec fn squared_distance_response(data: Seq<u8>) -> Seq<u8> {
    spec_u64_word(
        spec_squared_distance(
            arg_u64(data, 0),
            arg_u64(data, 1),
            arg_u64(data, 2),
            arg_u64(data, 3),
        ),
    )
}

pub fn squared_distance_handler(data: &[u8]) -> (r: Vec<u8>)
    ensures
        r@ == squared_distance_response(data@),
{
    let w0 = read_word(data, 0);
    let w1 = read_word(data, 1);
    let w2 = read_word(data, 2);
    let w3 = read_word(data, 3);
    let x1: u64 = codec::u64_from_abi_word(w0.as_slice());
    let y1: u64 = codec::u64_from_abi_word(w1.as_slice());
    let x2: u64 = codec::u64_from_abi_word(w2.as_slice());
    let y2: u64 = codec::u64_from_abi_word(w3.as_slice());
    codec::u64_to_abi_word(geometry::squared_distance(x1, y1, x2, y2))
}

/// The distance response; coordinate spreads whose squared distance
/// overflows the square-root domain have no answer.
pub open spec fn distance_between_response(data: Seq<u8>) -> Option<Seq<u8>> {
    let sq = spec_squared_distance(
        arg_u64(data, 0),
        arg_u64(data, 1),
        arg_u64(data, 2),
        arg_u64(data, 3),
    );
    if sq > fixed::SQRT_INPUT_MAX {
        None
    } else {
        Some(spec_u64_word((spec_isqrt(100 * sq) as u64)))
    }
}

pub fn distance_between_handler(data: &[u8]) -> (r: Option<Vec<u8>>)
    ensures
        matches_response(r, distance_between_response(data@)),
{
    let w0 = read_word(data, 0);
    let w1 = read_word(data, 1);
    let w2 = read_word(data, 2);
    let w3 = read_word(data, 3);
    let x1: u64 = codec::u64_from_abi_word(w0.as_slice());
    let y1: u64 = codec::u64_from_abi_word(w1.as_slice());
    let x2: u64 = codec::u64_from_abi_word(w2.as_slice());
    let y2: u64 = codec::u64_from_abi_word(w3.as_slice());
    let sq: u64 = geometry::squared_distance(x1, y1, x2, y2);
    if sq > fixed::SQRT_INPUT_MAX {
        return None;
    }
    Some(codec::u64_to_abi_word(geometry::distance_between(x1, y1, x2, y2)))
}

pub open spec fn dot_product_response(data: Seq<u8>) -> Seq<u8> {
    spec_u64_word(
        spec_dot(arg_u64(data, 0), arg_u64(data, 1), arg_u64(data, 2), arg_u64(data, 3)),
    )
}

pub fn dot_product_handler(data: &[u8]) -> (r: Vec<u8>)
    ensures
        r@ == dot_product_response(data@),
{
    let w0 = read_word(data, 0);
    let w1 = read_word(data, 1);
    let w2 = read_word(data, 2);
    let w3 = read_word(data, 3);
    let vx1: u64 = codec::u64_from_abi_word(w0.as_slice());
    let vy1: u64 = codec::u64_from_abi_word(w1.as_slice());
    let vx2: u64 = codec::u64_from_abi_word(w2.as_slice());
    let vy2: u64 = codec::u64_from_abi_word(w3.as_slice());
    codec::u64_to_abi_word(geometry::dot_product(vx1, vy1, vx2, vy2))
}

/// The magnitude response; vectors whose self-dot overflows the
/// square-root domain have no answer.
pub open spec fn magnitude_response(data: Seq<u8>) -> Option<Seq<u8>> {
    let vx = arg_u64(data, 0);
    let vy = arg_u64(data, 1);
    if spec_dot(vx, vy, vx, vy) > fixed::SQRT_INPUT_MAX {
        None
    } else {
        Some(spec_u64_word((spec_isqrt(100 * spec_dot(vx, vy, vx, vy)) as u64)))
    }
}

pub fn magnitude_handler(data: &[u8]) -> (r: Option<Vec<u8>>)
    ensures
        matches_response(r, magnitude_response(data@)),
{
    let w0 = read_word(data, 0);
    let w1 = read_word(data, 1);
    let vx: u64 = codec::u64_from_abi_word(w0.as_slice());
    let vy: u64 = codec::u64_from_abi_word(w1.as_slice());
    let dot: u64 = geometry::dot_product(vx, vy, vx, vy);
    if dot > fixed::SQRT_INPUT_MAX {
        return None;
    }
    Some(codec::u64_to_abi_word(geometry::magnitude(vx, vy)))
}

pub open spec fn cross_product_response(data: Seq<u8>) -> Seq<u8> {
    let t1 = sat_mul_u64(arg_u64(data, 0), arg_u64(data, 3)) / 100;
    let t2 = sat_mul_u64(arg_u64(data, 1), arg_u64(data, 2)) / 100;
    spec_u64_word(arith_bits_of_i64(((t1 - t2) as i64)))
}

pub fn cross_product_handler(data: &[u8]) -> (r: Vec<u8>)
    ensures
        r@ == cross_product_response(data@),
{
    let w0 = read_word(data, 0);
    let w1 = read_word(data, 1);
    let w2 = read_word(data, 2);
    let w3 = read_word(data, 3);
    let vx1: u64 = codec::u64_from_abi_word(w0.as_slice());
    let vy1: u64 = codec::u64_from_abi_word(w1.as_slice());
    let vx2: u64 = codec::u64_from_abi_word(w2.as_slice());
    let vy2: u64 = codec::u64_from_abi_word(w3.as_slice());
    codec::i64_to_abi_word(geometry::cross_product(vx1, vy1, vx2, vy2))
}

pub open spec fn clamp_response(data: Seq<u8>) -> Seq<u8> {
    let value = arg_u64(data, 0);
    let min = arg_u64(data, 1);
    let max = arg_u64(data, 2);
    spec_u64_word(
        if value < min {
            min
        } else if value > max {
            max
        } else {
            value
        },
    )
}

pub fn clamp_handler(data: &[u8]) -> (r: Vec<u8>)
    ensures
        r@ == clamp_response(data@),
{
    let w0 = read_word(data, 0);
    let w1 = read_word(data, 1);
    let w2 = read_word(data, 2);
    let value: u64 = codec::u64_from_abi_word(w0.as_slice());
    let min: u64 = codec::u64_from_abi_word(w1.as_slice());
    let max: u64 = codec::u64_from_abi_word(w2.as_slice());
    codec::u64_to_abi_word(fixed::clamp(value, min, max))
}

/// The vector-clamping response: two result words, or no answer when
/// the magnitude cannot be computed.
pub open spec fn clamp_vector_magnitude_response(data: Seq<u8>) -> Option<Seq<u8>> {
    let vx = arg_u64(data, 0);
    let vy = arg_u64(data, 1);
    let max_length = arg_u64(data, 2);
    if spec_dot(vx, vy, vx, vy) > fixed::SQRT_INPUT_MAX {
        None
    } else {
        let mag = spec_isqrt(100 * spec_dot(vx, vy, vx, vy));
        if mag > max_length {
            let scale = (sat_mul_u64(max_length, 100) / (mag as u64)) as u64;
            Some(
                spec_u64_word(((sat_mul_u64(vx, scale) / 100) as u64)) + spec_u64_word(
                    ((sat_mul_u64(vy, scale) / 100) as u64),
                ),
            )
        } else {
            Some(spec_u64_word(vx) + spec_u64_word(vy))
        }
    }
}

pub fn clamp_vector_magnitude_handler(data: &[u8]) -> (r: Option<Vec<u8>>)
    ensures
        matches_response(r, clamp_vector_magnitude_response(data@)),
{
    let w0 = read_word(data, 0);
    let w1 = read_word(data, 1);
    let w2 = read_word(data, 2);
    let vx: u64 = codec::u64_from_abi_word(w0.as_slice());
    let vy: u64 = codec::u64_from_abi_word(w1.as_slice());
    let max_length: u64 = codec::u64_from_abi_word(w2.as_slice());
    let dot: u64 = geometry::dot_product(vx, vy, vx, vy);
    if dot > fixed::SQRT_INPUT_MAX {
        return None;
    }
    let clamped = geometry::clamp_vector_magnitude(vx, vy, max_length);
    let mut out = codec::u64_to_abi_word(clamped.0);
    let mut yw = codec::u64_to_abi_word(clamped.1);
    out.append(&mut yw);
    Some(out)
}

pub open spec fn is_point_in_rect_response(data: Seq<u8>) -> Seq<u8> {
    spec_bool_word(
        arg_u64(data, 0) >= arg_u64(data, 2) && arg_u64(data, 0) <= sat_add_u64(
            arg_u64(data, 2),
            arg_u64(data, 4),
        ) && arg_u64(data, 1) >= arg_u64(data, 3) && arg_u64(data, 1) <= sat_add_u64(
            arg_u64(data, 3),
            arg_u64(data, 5),
        ),
    )
}

pub fn is_point_in_rect_handler(data: &[u8]) -> (r: Vec<u8>)
    ensures
        r@ == is_point_in_rect_response(data@),
{
    let w0 = read_word(data, 0);
    let w1 = read_word(data, 1);
    let w2 = read_word(data, 2);
    let w3 = read_word(data, 3);
    let w4 = read_word(data, 4);
    let w5 = read_word(data, 5);
    let px: u64 = codec::u64_from_abi_word(w0.as_slice());
    let py: u64 = codec::u64_from_abi_word(w1.as_slice());
    let rect_x: u64 = codec::u64_from_abi_word(w2.as_slice());
    let rect_y: u64 = codec::u64_from_abi_word(w3.as_slice());
    let rect_width: u64 = codec::u64_from_abi_word(w4.as_slice());
    let rect_height: u64 = codec::u64_from_abi_word(w5.as_slice());
    codec::bool_to_abi_word(
        geometry::is_point_in_rect(px, py, rect_x, rect_y, rect_width, rect_height),
    )
}

pub open spec fn is_point_in_circle_response(data: Seq<u8>) -> Seq<u8> {
    let px = arg_u64(data, 0);
    let py = arg_u64(data, 1);
    let cx = arg_u64(data, 2);
    let cy = arg_u64(data, 3);
    let radius = arg_u64(data, 4);
    let dx = if px > cx {
        (px - cx) as u64
    } else {
        (cx - px) as u64
    };
    let dy = if py > cy {
        (py - cy) as u64
    } else {
        (cy - py) as u64
    };
    spec_bool_word(
        sat_add_u64(sat_mul_u64(dx, dx), sat_mul_u64(dy, dy)) <= sat_mul_u64(radius, radius),
    )
}

pub fn is_point_in_circle_handler(data: &[u8]) -> (r: Vec<u8>)
    ensures
        r@ == is_point_in_circle_response(data@),
{
    let w0 = read_word(data, 0);
    let w1 = read_word(data, 1);
    let w2 = read_word(data, 2);
    let w3 = read_word(data, 3);
    let w4 = read_word(data, 4);
    let px: u64 = codec::u64_from_abi_word(w0.as_slice());
    let py: u64 = codec::u64_from_abi_word(w1.as_slice());
    let cx: u64 = codec::u64_from_abi_word(w2.as_slice());
    let cy: u64 = codec::u64_from_abi_word(w3.as_slice());
    let radius: u64 = codec::u64_from_abi_word(w4.as_slice());
    codec::bool_to_abi_word(geometry::is_point_in_circle(px, py, cx, cy, radius))
}

pub open spec fn add_vectors_response(data: Seq<u8>) -> Seq<u8> {
    spec_u64_word(sat_add_u64(arg_u64(data, 0), arg_u64(data, 2))) + spec_u64_word(
        sat_add_u64(arg_u64(data, 1), arg_u64(data, 3)),
    )
}

pub fn add_vectors_handler(data: &[u8]) -> (r: Vec<u8>)
    ensures
        r@ == add_vectors_response(data@),
{
    let w0 = read_word(data, 0);
    let w1 = read_word(data, 1);
    let w2 = read_word(data, 2);
    let w3 = read_word(data, 3);
    let vx1: u64 = codec::u64_from_abi_word(w0.as_slice());
    let vy1: u64 = codec::u64_from_abi_word(w1.as_slice());
    let vx2: u64 = codec::u64_from_abi_word(w2.as_slice());
    let vy2: u64 = codec::u64_from_abi_word(w3.as_slice());
    let sum = geometry::add_vectors(vx1, vy1, vx2, vy2);
    let mut out = codec::u64_to_abi_word(sum.0);
    let mut yw = codec::u64_to_abi_word(sum.1);
    out.append(&mut yw);
    out
}

pub open spec fn subtract_vectors_response(data: Seq<u8>) -> Seq<u8> {
    spec_u64_word(sat_sub_u64(arg_u64(data, 0), arg_u64(data, 2))) + spec_u64_word(
        sat_sub_u64(arg_u64(data, 1), arg_u64(data, 3)),
    )
}

pub fn subtract_vectors_handler(data: &[u8]) -> (r: Vec<u8>)
    ensures
        r@ == subtract_vectors_response(data@),
{
    let w0 = read_word(data, 0);
    let w1 = read_word(data, 1);
    let w2 = read_word(data, 2);
    let w3 = read_word(data, 3);
    let vx1: u64 = codec::u64_from_abi_word(w0.as_slice());
    let vy1: u64 = codec::u64_from_abi_word(w1.as_slice());
    let vx2: u64 = codec::u64_from_abi_word(w2.as_slice());
    let vy2: u64 = codec::u64_from_abi_word(w3.as_slice());
    let diff = geometry::subtract_vectors(vx1, vy1, vx2, vy2);
    let mut out = codec::u64_to_abi_word(diff.0);
    let mut yw = codec::u64_to_abi_word(diff.1);
    out.append(&mut yw);
    out
}

pub open spec fn scale_vector_response(data: Seq<u8>) -> Seq<u8> {
    let scalar = arg_u64(data, 2);
    spec_u64_word(((sat_mul_u64(arg_u64(data, 0), scalar) / 100) as u64)) + spec_u64_word(
        ((sat_mul_u64(arg_u64(data, 1), scalar) / 100) as u64),
    )
}

pub fn scale_vector_handler(data: &[u8]) -> (r: Vec<u8>)
    ensures
        r@ == scale_vector_response(data@),
{
    let w0 = read_word(data, 0);
    let w1 = read_word(data, 1);
    let w2 = read_word(data, 2);
    let vx: u64 = codec::u64_from_abi_word(w0.as_slice());
    let vy: u64 = codec::u64_from_abi_word(w1.as_slice());
    let scalar: u64 = codec::u64_from_abi_word(w2.as_slice());
    let scaled = geometry::scale_vector(vx, vy, scalar);
    let mut out = codec::u64_to_abi_word(scaled.0);
    let mut yw = codec::u64_to_abi_word(scaled.1);
    out.append(&mut yw);
    out
}

/// The normalization response: two result words, or no answer when the
/// magnitude cannot be computed.
pub open spec fn normalize_vector_response(data: Seq<u8>) -> Option<Seq<u8>> {
    let vx = arg_u64(data, 0);
    let vy = arg_u64(data, 1);
    if spec_dot(vx, vy, vx, vy) > fixed::SQRT_INPUT_MAX {
        None
    } else {
        let mag = spec_isqrt(100 * spec_dot(vx, vy, vx, vy));
        if mag == 0 {
            Some(spec_u64_word(0) + spec_u64_word(0))
        } else {
            Some(
                spec_u64_word(((sat_mul_u64(vx, 100) / mag as u64) as u64)) + spec_u64_word(
                    ((sat_mul_u64(vy, 100) / mag as u64) as u64),
                ),
            )
        }
    }
}

pub fn normalize_vector_handler(data: &[u8]) -> (r: Option<Vec<u8>>)
    ensures
        matches_response(r, normalize_vector_response(data@)),
{
    let w0 = read_word(data, 0);
    let w1 = read_word(data, 1);
    let vx: u64 = codec::u64_from_abi_word(w0.as_slice());
    let vy: u64 = codec::u64_from_abi_word(w1.as_slice());
    let dot: u64 = geometry::dot_product(vx, vy, vx, vy);
    if dot > fixed::SQRT_INPUT_MAX {
        return None;
    }
    let normalized = geometry::normalize_vector(vx, vy);
    let mut out = codec::u64_to_abi_word(normalized.0);
    let mut yw = codec::u64_to_abi_word(normalized.1);
    out.append(&mut yw);
    Some(out)
}

/// The rotation response: two signed result words.
pub open spec fn rotate_vector_response(data: Seq<u8>) -> Seq<u8> {
    let vx = i64_of_bits(arg_u64(data, 0));
    let vy = i64_of_bits(arg_u64(data, 1));
    let angle = arg_u32(data, 2);
    let xc = arith::trunc_div(arith::sat_mul_i64((vx as i64), (spec_cos(angle) as i64)) as int, 100);
    let xs = arith::trunc_div(arith::sat_mul_i64((vx as i64), (spec_sin(angle) as i64)) as int, 100);
    let yc = arith::trunc_div(arith::sat_mul_i64((vy as i64), (spec_cos(angle) as i64)) as int, 100);
    let ys = arith::trunc_div(arith::sat_mul_i64((vy as i64), (spec_sin(angle) as i64)) as int, 100);
    spec_u64_word(arith_bits_of_i64(((xc - ys) as i64))) + spec_u64_word(
        arith_bits_of_i64(((xs + yc) as i64)),
    )
}

pub fn rotate_vector_handler(data: &[u8]) -> (r: Vec<u8>)
    ensures
        r@ == rotate_vector_response(data@),
{
    let w0 = read_word(data, 0);
    let w1 = read_word(data, 1);
    let w2 = read_word(data, 2);
    let vx: u64 = codec::u64_from_abi_word(w0.as_slice());
    let vy: u64 = codec::u64_from_abi_word(w1.as_slice());
    let angle: u32 = codec::u32_from_abi_word(w2.as_slice());
    let rotated = geometry::rotate_vector(vx, vy, angle);
    let mut out = codec::i64_to_abi_word(rotated.0);
    let mut yw = codec::i64_to_abi_word(rotated.1);
    out.append(&mut yw);
    out
}

/// The reflection response: two signed result words, or no answer for
/// inputs outside the signed domain or with an oversized projection.
pub open spec fn reflect_vector_response(data: Seq<u8>) -> Option<Seq<u8>> {
    let vx = arg_u64(data, 0);
    let vy = arg_u64(data, 1);
    let nx = arg_u64(data, 2);
    let ny = arg_u64(data, 3);
    if vx > i64::MAX || vy > i64::MAX || nx > i64::MAX || ny > i64::MAX || spec_dot(vx, vy, nx, ny)
        >= 0x4000_0000_0000_0000 {
        None
    } else {
        let twice_dot = 2 * spec_dot(vx, vy, nx, ny) as int;
        let rx = vx - arith::trunc_div(
            arith::sat_mul_i64(nx as i64, (twice_dot as i64)) as int,
            100,
        );
        let ry = vy - arith::trunc_div(
            arith::sat_mul_i64(ny as i64, (twice_dot as i64)) as int,
            100,
        );
        Some(
            spec_u64_word(arith_bits_of_i64((rx as i64))) + spec_u64_word(
                arith_bits_of_i64((ry as i64)),
            ),
        )
    }
}

pub fn reflect_vector_handler(data: &[u8]) -> (r: Option<Vec<u8>>)
    ensures
        matches_response(r, reflect_vector_response(data@)),
{
    let w0 = read_word(data, 0);
    let w1 = read_word(data, 1);
    let w2 = read_word(data, 2);
    let w3 = read_word(data, 3);
    let vx: u64 = codec::u64_from_abi_word(w0.as_slice());
    let vy: u64 = codec::u64_from_abi_word(w1.as_slice());
    let nx: u64 = codec::u64_from_abi_word(w2.as_slice());
    let ny: u64 = codec::u64_from_abi_word(w3.as_slice());
    if vx > 0x7FFF_FFFF_FFFF_FFFFu64 || vy > 0x7FFF_FFFF_FFFF_FFFFu64 || nx
        > 0x7FFF_FFFF_FFFF_FFFFu64 || ny > 0x7FFF_FFFF_FFFF_FFFFu64 {
        return None;
    }
    let dot: u64 = geometry::dot_product(vx, vy, nx, ny);
    if dot >= 0x4000_0000_0000_0000u64 {
        return None;
    }
    let reflected = geometry::reflect_vector(vx, vy, nx, ny);
    let mut out = codec::i64_to_abi_word(reflected.0);
    let mut yw = codec::i64_to_abi_word(reflected.1);
    out.append(&mut yw);
    Some(out)
}

/// The triangle-containment response; coordinates outside the signed
/// range have no answer.
pub open spec fn is_point_in_triangle_response(data: Seq<u8>) -> Option<Seq<u8>> {
    let px = arg_u64(data, 0);
    let py = arg_u64(data, 1);
    let ax = arg_u64(data, 2);
    let ay = arg_u64(data, 3);
    let bx = arg_u64(data, 4);
    let by = arg_u64(data, 5);
    let cx = arg_u64(data, 6);
    let cy = arg_u64(data, 7);
    if px > i64::MAX || py > i64::MAX || ax > i64::MAX || ay > i64::MAX || bx > i64::MAX || by
        > i64::MAX || cx > i64::MAX || cy > i64::MAX {
        None
    } else {
        let c1 = spec_edge_cross(ax, ay, bx, by, px, py);
        let c2 = spec_edge_cross(bx, by, cx, cy, px, py);
        let c3 = spec_edge_cross(cx, cy, ax, ay, px, py);
        Some(
            spec_bool_word(
                (c1 >= 0 && c2 >= 0 && c3 >= 0) || (c1 <= 0 && c2 <= 0 && c3 <= 0),
            ),
        )
    }
}

pub fn is_point_in_triangle_handler(data: &[u8]) -> (r: Option<Vec<u8>>)
    ensures
        matches_response(r, is_point_in_triangle_response(data@)),
{
    let w0 = read_word(data, 0);
    let w1 = read_word(data, 1);
    let w2 = read_word(data, 2);
    let w3 = read_word(data, 3);
    let w4 = read_word(data, 4);
    let w5 = read_word(data, 5);
    let w6 = read_word(data, 6);
    let w7 = read_word(data, 7);
    let px: u64 = codec::u64_from_abi_word(w0.as_slice());
    let py: u64 = codec::u64_from_abi_word(w1.as_slice());
    let ax: u64 = codec::u64_from_abi_word(w2.as_slice());
    let ay: u64 = codec::u64_from_abi_word(w3.as_slice());
    let bx: u64 = codec::u64_from_abi_word(w4.as_slice());
    let by: u64 = codec::u64_from_abi_word(w5.as_slice());
    let cx: u64 = codec::u64_from_abi_word(w6.as_slice());
    let cy: u64 = codec::u64_from_abi_word(w7.as_slice());
    let limit: u64 = 0x7FFF_FFFF_FFFF_FFFF;
    if px > limit || py > limit || ax > limit || ay > limit || bx > limit || by > limit || cx
        > limit || cy > limit {
        return None;
    }
    Some(codec::bool_to_abi_word(geometry::is_point_in_triangle(px, py, ax, ay, bx, by, cx, cy)))
}


/// The modular-inverse response: the Optional wire form of the inverse.
pub open spec fn modinv_response(data: Seq<u8>) -> Seq<u8> {
    match spec_modinv(arg_i64(data, 0), arg_i64(data, 1)) {
        Some(v) => spec_bool_word(true) + spec_u64_word(arith_bits_of_i64((v as i64))),
        None => spec_bool_word(false) + spec_zero_word(),
    }
}

pub fn modinv_handler(data: &[u8]) -> (r: Vec<u8>)
    ensures
        r@ == modinv_response(data@),
{
    let w0 = read_word(data, 0);
    let w1 = read_word(data, 1);
    let a: i64 = codec::i64_from_abi_word(w0.as_slice());
    let m: i64 = codec::i64_from_abi_word(w1.as_slice());
    let inverse = numtheory::modinv(a, m);
    proof {
        if m > 0 {
            if inverse is Some {
                let v = inverse->Some_0;
                vstd::arithmetic::div_mod::lemma_mul_mod_noop_left(a as int, v as int, m as int);
                numtheory::lemma_inv_matches_spec(
                    (a as int % m as int) as nat,
                    m as nat,
                    v as nat,
                );
            }
        }
    }
    codec::encode_option_i64(inverse)
}

pub open spec fn is_prime_response(data: Seq<u8>) -> Seq<u8> {
    spec_bool_word(spec_is_prime(arg_u64(data, 0) as nat))
}

pub fn is_prime_handler(data: &[u8]) -> (r: Vec<u8>)
    ensures
        r@ == is_prime_response(data@),
{
    let w0 = read_word(data, 0);
    let n: u64 = codec::u64_from_abi_word(w0.as_slice());
    codec::bool_to_abi_word(numtheory::is_prime(n))
}

pub open spec fn gcd_response(data: Seq<u8>) -> Seq<u8> {
    spec_u64_word((spec_gcd(arg_u64(data, 0) as nat, arg_u64(data, 1) as nat) as u64))
}

pub fn gcd_handler(data: &[u8]) -> (r: Vec<u8>)
    ensures
        r@ == gcd_response(data@),
{
    let w0 = read_word(data, 0);
    let w1 = read_word(data, 1);
    let a: u64 = codec::u64_from_abi_word(w0.as_slice());
    let b: u64 = codec::u64_from_abi_word(w1.as_slice());
    codec::u64_to_abi_word(numtheory::gcd(a, b))
}

pub open spec fn lcm_response(data: Seq<u8>) -> Seq<u8> {
    let a = arg_u64(data, 0);
    let b = arg_u64(data, 1);
    if a == 0 || b == 0 {
        spec_u64_word(0)
    } else {
        spec_u64_word(sat_mul_u64(((a as nat / spec_gcd(a as nat, b as nat)) as u64), b))
    }
}

pub fn lcm_handler(data: &[u8]) -> (r: Vec<u8>)
    ensures
        r@ == lcm_response(data@),
{
    let w0 = read_word(data, 0);
    let w1 = read_word(data, 1);
    let a: u64 = codec::u64_from_abi_word(w0.as_slice());
    let b: u64 = codec::u64_from_abi_word(w1.as_slice());
    codec::u64_to_abi_word(numtheory::lcm(a, b))
}

pub open spec fn factorial_response(data: Seq<u8>) -> Seq<u8> {
    let n = arg_u64(data, 0);
    if n > 20 {
        spec_bool_word(false) + spec_zero_word()
    } else {
        spec_bool_word(true) + spec_u64_word((spec_fact(n as nat) as u64))
    }
}

pub fn factorial_handler(data: &[u8]) -> (r: Vec<u8>)
    ensures
        r@ == factorial_response(data@),
{
    let w0 = read_word(data, 0);
    let n: u64 = codec::u64_from_abi_word(w0.as_slice());
    codec::encode_option_u64(numtheory::factorial(n))
}

pub open spec fn n_choose_k_response(data: Seq<u8>) -> Seq<u8> {
    let n = arg_u64(data, 0);
    let k = arg_u64(data, 1);
    if k > n {
        spec_u64_word(0)
    } else if k == 0 || k == n {
        spec_u64_word(1)
    } else {
        spec_u64_word(
            nck_iter(
                n,
                if k > n / 2 {
                    (n - k) as u64
                } else {
                    k
                },
                0,
                1,
            ),
        )
    }
}

pub fn n_choose_k_handler(data: &[u8]) -> (r: Vec<u8>)
    ensures
        r@ == n_choose_k_response(data@),
{
    let w0 = read_word(data, 0);
    let w1 = read_word(data, 1);
    let n: u64 = codec::u64_from_abi_word(w0.as_slice());
    let k: u64 = codec::u64_from_abi_word(w1.as_slice());
    codec::u64_to_abi_word(numtheory::n_choose_k(n, k))
}

pub open spec fn log2_floor_response(data: Seq<u8>) -> Seq<u8> {
    let n = arg_u64(data, 0);
    if n == 0 {
        spec_bool_word(false) + spec_zero_word()
    } else {
        spec_bool_word(true) + spec_u32_word(spec_log2_floor(n))
    }
}

pub fn log2_floor_handler(data: &[u8]) -> (r: Vec<u8>)
    ensures
        r@ == log2_floor_response(data@),
{
    let w0 = read_word(data, 0);
    let n: u64 = codec::u64_from_abi_word(w0.as_slice());
    codec::encode_option_u32(numtheory::log2_floor(n))
}

pub open spec fn log10_floor_response(data: Seq<u8>) -> Seq<u8> {
    let n = arg_u64(data, 0);
    if n == 0 {
        spec_u32_word(0)
    } else {
        spec_u32_word(spec_log10_floor(n))
    }
}

pub fn log10_floor_handler(data: &[u8]) -> (r: Vec<u8>)
    ensures
        r@ == log10_floor_response(data@),
{
    let w0 = read_word(data, 0);
    let n: u64 = codec::u64_from_abi_word(w0.as_slice());
    codec::u32_to_abi_word(numtheory::log10_floor(n))
}

pub open spec fn popcount_response(data: Seq<u8>) -> Seq<u8> {
    spec_u32_word((count_bits_from(arg_u64(data, 0), 0) as u32))
}

pub fn popcount_handler(data: &[u8]) -> (r: Vec<u8>)
    ensures
        r@ == popcount_response(data@),
{
    let w0 = read_word(data, 0);
    let n: u64 = codec::u64_from_abi_word(w0.as_slice());
    codec::u32_to_abi_word(bits::popcount(n))
}

pub open spec fn reverse_bits_response(data: Seq<u8>) -> Seq<u8> {
    spec_u64_word(rev_step(arg_u64(data, 0), 0, 0))
}

pub fn reverse_bits_handler(data: &[u8]) -> (r: Vec<u8>)
    ensures
        r@ == reverse_bits_response(data@),
{
    let w0 = read_word(data, 0);
    let n: u64 = codec::u64_from_abi_word(w0.as_slice());
    codec::u64_to_abi_word(bits::reverse_bits(n))
}

pub open spec fn phi_response(data: Seq<u8>) -> Seq<u8> {
    let n = arg_u64(data, 0);
    if n == 0 {
        spec_u64_word(0)
    } else {
        spec_u64_word((phi_loop(n as nat, n as nat, 2) as u64))
    }
}

pub fn phi_handler(data: &[u8]) -> (r: Vec<u8>)
    ensures
        r@ == phi_response(data@),
{
    let w0 = read_word(data, 0);
    let n: u64 = codec::u64_from_abi_word(w0.as_slice());
    codec::u64_to_abi_word(numtheory::phi(n))
}

pub open spec fn rotl64_response(data: Seq<u8>) -> Seq<u8> {
    let n = arg_u64(data, 0);
    let s = (arg_u32(data, 1) as u64) % 64;
    spec_u64_word((n << s) | (n >> ((64 - s) % 64)))
}

pub fn rotl64_handler(data: &[u8]) -> (r: Vec<u8>)
    ensures
        r@ == rotl64_response(data@),
{
    let w0 = read_word(data, 0);
    let w1 = read_word(data, 1);
    let n: u64 = codec::u64_from_abi_word(w0.as_slice());
    let k: u32 = codec::u32_from_abi_word(w1.as_slice());
    codec::u64_to_abi_word(bits::rotl64(n, k))
}

pub open spec fn rotr64_response(data: Seq<u8>) -> Seq<u8> {
    let n = arg_u64(data, 0);
    let s = (arg_u32(data, 1) as u64) % 64;
    spec_u64_word((n >> s) | (n << ((64 - s) % 64)))
}

pub fn rotr64_handler(data: &[u8]) -> (r: Vec<u8>)
    ensures
        r@ == rotr64_response(data@),
{
    let w0 = read_word(data, 0);
    let w1 = read_word(data, 1);
    let n: u64 = codec::u64_from_abi_word(w0.as_slice());
    let k: u32 = codec::u32_from_abi_word(w1.as_slice());
    codec::u64_to_abi_word(bits::rotr64(n, k))
}

/// The comparison covers the two whole 32-byte argument words, high
/// bytes included.
pub open spec fn constant_time_eq_response(data: Seq<u8>) -> Seq<u8> {
    spec_bool_word(word_seq(data, 0) == word_seq(data, 1))
}

pub fn constant_time_eq_handler(data: &[u8]) -> (r: Vec<u8>)
    ensures
        r@ == constant_time_eq_response(data@),
{
    let w0 = read_word(data, 0);
    let w1 = read_word(data, 1);
    codec::bool_to_abi_word(bits::constant_time_eq(w0.as_slice(), w1.as_slice()))
}

/// The carry-less product split into its high and low 64-bit words.
pub open spec fn clmul_response(data: Seq<u8>) -> Seq<u8> {
    let prod = clmul_below(arg_u64(data, 0), arg_u64(data, 1), 64);
    spec_u64_word(((prod as int / 0x1_0000_0000_0000_0000) as u64)) + spec_u64_word(
        ((prod as int % 0x1_0000_0000_0000_0000) as u64),
    )
}

pub fn clmul_handler(data: &[u8]) -> (r: Vec<u8>)
    ensures
        r@ == clmul_response(data@),
{
    let w0 = read_word(data, 0);
    let w1 = read_word(data, 1);
    let a: u64 = codec::u64_from_abi_word(w0.as_slice());
    let b: u64 = codec::u64_from_abi_word(w1.as_slice());
    let prod: u128 = bits::clmul(a, b);
    let lift: u128 = 0x1_0000_0000_0000_0000;
    let high128: u128 = prod / lift;
    proof {
        vstd::arithmetic::div_mod::lemma_fundamental_div_mod(prod as int, lift as int);
        assert(high128 < 0x1_0000_0000_0000_0000) by (nonlinear_arith)
            requires
                prod as int == lift as int * (prod as int / lift as int) + prod as int % lift
                    as int && prod as int % lift as int >= 0 && high128 == prod as int / lift
                    as int && prod <= u128::MAX && lift == 0x1_0000_0000_0000_0000,
        ;
    }
    let low128: u128 = prod % lift;
    let mut out = codec::u64_to_abi_word(high128 as u64);
    let mut low_word = codec::u64_to_abi_word(low128 as u64);
    out.append(&mut low_word);
    out
}

/// One step of the stream generator from a seed word: a zero seed is
/// remapped to one before the step.
pub open spec fn xorshift_next_response(data: Seq<u8>) -> Seq<u8> {
    let seed = arg_u64(data, 0);
    let start = if seed == 0 {
        1u64
    } else {
        seed
    };
    spec_u64_word(xs_output(xs_shift(start)))
}

pub fn xorshift_next_handler(data: &[u8]) -> (r: Vec<u8>)
    ensures
        r@ == xorshift_next_response(data@),
{
    let w0 = read_word(data, 0);
    let seed: u64 = codec::u64_from_abi_word(w0.as_slice());
    let mut rng = Xorshift64Star::new(seed);
    let value: u64 = rng.next();
    codec::u64_to_abi_word(value)
}

/// Whether a decoded point's coordinates lie in the field, so that the
/// curve engine's answer is defined.
pub open spec fn point_arg_ok(p: Point, m: u64) -> bool {
    point_wf(p, m)
}

/// The point-addition response: the Optional Point wire form, or no
/// answer when a coordinate lies outside the field.
pub open spec fn point_add_response(data: Seq<u8>) -> Option<Seq<u8>> {
    let p1 = spec_decode_point(word_seq(data, 0), word_seq(data, 1));
    let p2 = spec_decode_point(word_seq(data, 2), word_seq(data, 3));
    let a = arg_u64(data, 4);
    let m = arg_u64(data, 5);
    if !point_arg_ok(p1, m) || !point_arg_ok(p2, m) {
        None
    } else {
        match spec_point_add(p1, p2, a, m) {
            Some(p) => Some(spec_bool_word(true) + spec_point_words(p)),
            None => Some(spec_bool_word(false) + spec_zero_word() + spec_zero_word()),
        }
    }
}

fn point_in_field(p: &Point, m: u64) -> (r: bool)
    ensures
        r == point_wf(*p, m),
{
    match p {
        Point::Infinity => true,
        Point::Coordinate { x, y } => m == 0 || (*x < m && *y < m),
    }
}

pub fn point_add_handler(data: &[u8]) -> (r: Option<Vec<u8>>)
    ensures
        matches_response(r, point_add_response(data@)),
{
    let w0 = read_word(data, 0);
    let w1 = read_word(data, 1);
    let w2 = read_word(data, 2);
    let w3 = read_word(data, 3);
    let w4 = read_word(data, 4);
    let w5 = read_word(data, 5);
    let p1: Point = codec::point_from_abi_words(w0.as_slice(), w1.as_slice());
    let p2: Point = codec::point_from_abi_words(w2.as_slice(), w3.as_slice());
    let a: u64 = codec::u64_from_abi_word(w4.as_slice());
    let modulus: u64 = codec::u64_from_abi_word(w5.as_slice());
    if !point_in_field(&p1, modulus) || !point_in_field(&p2, modulus) {
        return None;
    }
    Some(codec::encode_option_point(curve::point_add(p1, p2, a, modulus)))
}

/// The point-doubling response: the Optional Point wire form, or no
/// answer when a coordinate lies outside the field.
pub open spec fn point_double_response(data: Seq<u8>) -> Option<Seq<u8>> {
    let p = spec_decode_point(word_seq(data, 0), word_seq(data, 1));
    let a = arg_u64(data, 2);
    let m = arg_u64(data, 3);
    if !point_arg_ok(p, m) {
        None
    } else {
        match spec_point_double(p, a, m) {
            Some(q) => Some(spec_bool_word(true) + spec_point_words(q)),
            None => Some(spec_bool_word(false) + spec_zero_word() + spec_zero_word()),
        }
    }
}

pub fn point_double_handler(data: &[u8]) -> (r: Option<Vec<u8>>)
    ensures
        matches_response(r, point_double_response(data@)),
{
    let w0 = read_word(data, 0);
    let w1 = read_word(data, 1);
    let w2 = read_word(data, 2);
    let w3 = read_word(data, 3);
    let p: Point = codec::point_from_abi_words(w0.as_slice(), w1.as_slice());
    let a: u64 = codec::u64_from_abi_word(w2.as_slice());
    let modulus: u64 = codec::u64_from_abi_word(w3.as_slice());
    if !point_in_field(&p, modulus) {
        return None;
    }
    Some(codec::encode_option_point(curve::point_double(p, a, modulus)))
}

/// The trajectory response: the two coefficient words, or no answer for
/// the one gravity word whose signed negation does not exist.
pub open spec fn trajectory_response(data: Seq<u8>) -> Option<Seq<u8>> {
    let angle = arg_u32(data, 0);
    let v0 = arg_u64(data, 1);
    let g = arg_u64(data, 2);
    if g == 0x8000_0000_0000_0000u64 {
        None
    } else {
        let pair = spec_trajectory(angle, v0, g);
        Some(
            spec_u64_word(arith_bits_of_i64((pair.0 as i64))) + spec_u64_word(
                arith_bits_of_i64((pair.1 as i64)),
            ),
        )
    }
}

pub fn get_projectile_trajectory_coefficients_handler(data: &[u8]) -> (r: Option<Vec<u8>>)
    ensures
        matches_response(r, trajectory_response(data@)),
{
    let w0 = read_word(data, 0);
    let w1 = read_word(data, 1);
    let w2 = read_word(data, 2);
    let angle: u32 = codec::u32_from_abi_word(w0.as_slice());
    let v0: u64 = codec::u64_from_abi_word(w1.as_slice());
    let g: u64 = codec::u64_from_abi_word(w2.as_slice());
    if g == 0x8000_0000_0000_0000u64 {
        return None;
    }
    let pair = trajectory::get_projectile_trajectory_coefficients(angle, v0, g);
    let mut out = codec::i64_to_abi_word(pair.0);
    let mut second = codec::i64_to_abi_word(pair.1);
    out.append(&mut second);
    Some(out)
}

/// Dispatch one invocation: decode the selector and answer with the
/// selected engine's response; selectors outside the table answer with
/// a single all-zero word. An absent result is the unrecoverable-fault
/// signal: the operation cannot return for those inputs.
pub fn dispatch(input: &[u8]) -> (r: Option<Vec<u8>>)
    ensures
        ({
            let sel = selector_of(input@);
            let d = input@;
            &&& sel == 0x01 ==> matches_response(r, modexp_response(d))
            &&& sel == 0x02 ==> matches_response(r, Some(square_response(d)))
            &&& sel == 0x03 ==> matches_response(r, square_root_response(d))
            &&& sel == 0x04 ==> matches_response(r, Some(mul_response(d)))
            &&& sel == 0x05 ==> matches_response(r, Some(div_response(d)))
            &&& sel == 0x06 ==> matches_response(r, Some(lerp_response(d)))
            &&& sel == 0x07 ==> matches_response(r, Some(sin_response(d)))
            &&& sel == 0x08 ==> matches_response(r, Some(cos_response(d)))
            &&& sel == 0x09 ==> matches_response(r, Some(squared_distance_response(d)))
            &&& sel == 0x0A ==> matches_response(r, distance_between_response(d))
            &&& sel == 0x0B ==> matches_response(r, Some(dot_product_response(d)))
            &&& sel == 0x0C ==> matches_response(r, magnitude_response(d))
            &&& sel == 0x0D ==> matches_response(r, Some(cross_product_response(d)))
            &&& sel == 0x0E ==> matches_response(r, Some(clamp_response(d)))
            &&& sel == 0x0F ==> matches_response(r, clamp_vector_magnitude_response(d))
            &&& sel == 0x10 ==> matches_response(r, Some(is_point_in_rect_response(d)))
            &&& sel == 0x11 ==> matches_response(r, Some(is_point_in_circle_response(d)))
            &&& sel == 0x12 ==> matches_response(r, Some(add_vectors_response(d)))
            &&& sel == 0x13 ==> matches_response(r, Some(subtract_vectors_response(d)))
            &&& sel == 0x14 ==> matches_response(r, Some(scale_vector_response(d)))
            &&& sel == 0x15 ==> matches_response(r, normalize_vector_response(d))
            &&& sel == 0x16 ==> matches_response(r, Some(rotate_vector_response(d)))
            &&& sel == 0x17 ==> matches_response(r, reflect_vector_response(d))
            &&& sel == 0x18 ==> matches_response(r, is_point_in_triangle_response(d))
            &&& sel == 0x19 ==> matches_response(r, Some(modinv_response(d)))
            &&& sel == 0x1A ==> matches_response(r, Some(is_prime_response(d)))
            &&& sel == 0x1B ==> matches_response(r, Some(gcd_response(d)))
            &&& sel == 0x1C ==> matches_response(r, Some(lcm_response(d)))
            &&& sel == 0x1D ==> matches_response(r, Some(factorial_response(d)))
            &&& sel == 0x1E ==> matches_response(r, Some(n_choose_k_response(d)))
            &&& sel == 0x1F ==> matches_response(r, Some(log2_floor_response(d)))
            &&& sel == 0x20 ==> matches_response(r, Some(log10_floor_response(d)))
            &&& sel == 0x21 ==> matches_response(r, Some(popcount_response(d)))
            &&& sel == 0x22 ==> matches_response(r, Some(reverse_bits_response(d)))
            &&& sel == 0x23 ==> matches_response(r, Some(phi_response(d)))
            &&& sel == 0x24 ==> matches_response(r, Some(rotl64_response(d)))
            &&& sel == 0x25 ==> matches_response(r, Some(rotr64_response(d)))
            &&& sel == 0x26 ==> matches_response(r, Some(constant_time_eq_response(d)))
            &&& sel == 0x27 ==> matches_response(r, Some(clmul_response(d)))
            &&& sel == 0x28 ==> matches_response(r, Some(xorshift_next_response(d)))
            &&& sel == 0x29 ==> matches_response(r, point_add_response(d))
            &&& sel == 0x2A ==> matches_response(r, point_double_response(d))
            &&& sel == 0x2B ==> matches_response(r, trajectory_response(d))
            &&& (sel < 0x01 || sel > 0x2B) ==> matches_response(r, Some(spec_zero_word()))
        }),
{
    let selector: u32 = read_selector(input);
    match selector {
        0x01 => modexp_handler(input),
        0x02 => Some(square_handler(input)),
        0x03 => square_root_handler(input),
        0x04 => Some(mul_handler(input)),
        0x05 => Some(div_handler(input)),
        0x06 => Some(lerp_handler(input)),
        0x07 => Some(sin_handler(input)),
        0x08 => Some(cos_handler(input)),
        0x09 => Some(squared_distance_handler(input)),
        0x0A => distance_between_handler(input),
        0x0B => Some(dot_product_handler(input)),
        0x0C => magnitude_handler(input),
        0x0D => Some(cross_product_handler(input)),
        0x0E => Some(clamp_handler(input)),
        0x0F => clamp_vector_magnitude_handler(input),
        0x10 => Some(is_point_in_rect_handler(input)),
        0x11 => Some(is_point_in_circle_handler(input)),
        0x12 => Some(add_vectors_handler(input)),
        0x13 => Some(subtract_vectors_handler(input)),
        0x14 => Some(scale_vector_handler(input)),
        0x15 => normalize_vector_handler(input),
        0x16 => Some(rotate_vector_handler(input)),
        0x17 => reflect_vector_handler(input),
        0x18 => is_point_in_triangle_handler(input),
        0x19 => Some(modinv_handler(input)),
        0x1A => Some(is_prime_handler(input)),
        0x1B => Some(gcd_handler(input)),
        0x1C => Some(lcm_handler(input)),
        0x1D => Some(factorial_handler(input)),
        0x1E => Some(n_choose_k_handler(input)),
        0x1F => Some(log2_floor_handler(input)),
        0x20 => Some(log10_floor_handler(input)),
        0x21 => Some(popcount_handler(input)),
        0x22 => Some(reverse_bits_handler(input)),
        0x23 => Some(phi_handler(input)),
        0x24 => Some(rotl64_handler(input)),
        0x25 => Some(rotr64_handler(input)),
        0x26 => Some(constant_time_eq_handler(input)),
        0x27 => Some(clmul_handler(input)),
        0x28 => Some(xorshift_next_handler(input)),
        0x29 => point_add_handler(input),
        0x2A => point_double_handler(input),
        0x2B => get_projectile_trajectory_coefficients_handler(input),
        _ => Some(codec::zero_word()),
    }
}

} // verus!
