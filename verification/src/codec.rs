//! The ABI word codec: 32-byte big-endian argument and result words with
//! the scalar payload in the low bytes, and the Optional and Point wire
//! encodings built from them. The decoder reads only the payload bytes
//! of a word and ignores whatever stands in the high bytes.
use vstd::prelude::*;

use vstd::arithmetic::div_mod::lemma_breakdown;
use vstd::arithmetic::div_mod::lemma_small_mod;
use vstd::arithmetic::power2::lemma2_to64;
use vstd::arithmetic::power2::lemma2_to64_rest;
use vstd::arithmetic::power2::pow2;
use vstd::bits::lemma_low_bits_mask_values;
use vstd::bits::lemma_u64_low_bits_mask_is_mod;
use vstd::bits::lemma_u64_shr_is_div;

use crate::arith;
use crate::arith::i64_of_bits;
use crate::curve::Point;

verus! {

/// The scalar value of the low 8 bytes of a 32-byte word, big-endian.
pub open spec fn word_u64(w: Seq<u8>) -> int
    recommends
        w.len() == 32,
{
    w[24] * 0x100_0000_0000_0000 + w[25] * 0x1_0000_0000_0000 + w[26] * 0x100_0000_0000 + w[27]
        * 0x1_0000_0000 + w[28] * 0x100_0000 + w[29] * 0x1_0000 + w[30] * 0x100 + w[31]
}

/// The scalar value of the low 4 bytes of a 32-byte word, big-endian.
pub open spec fn word_u32(w: Seq<u8>) -> int
    recommends
        w.len() == 32,
{
    w[28] * 0x100_0000 + w[29] * 0x1_0000 + w[30] * 0x100 + w[31]
}

/// Byte `i` of the canonical 32-byte word carrying `v`: zeros above the
/// payload, then the big-endian base-256 digits of `v`.
pub open spec fn u64_word_byte(v: u64, i: int) -> u8 {
    if 24 <= i < 32 {
        ((v as nat / pow2((8 * (31 - i)) as nat)) % 256) as u8
    } else {
        0
    }
}

/// The canonical 32-byte word carrying the 64-bit scalar `v`.
pub open spec fn spec_u64_word(v: u64) -> Seq<u8> {
    Seq::new(32, |i: int| u64_word_byte(v, i))
}

/// The canonical 32-byte word carrying the 32-bit scalar `v`.
pub open spec fn spec_u32_word(v: u32) -> Seq<u8> {
    Seq::new(
        32,
        |i: int|
            if 28 <= i < 32 {
                ((v as nat / pow2((8 * (31 - i)) as nat)) % 256) as u8
            } else {
                0u8
            },
    )
}

/// The canonical boolean word: all zero, with the lowest byte one for
/// true.
pub open spec fn spec_bool_word(v: bool) -> Seq<u8> {
    Seq::new(
        32,
        |i: int|
            if i == 31 && v {
                1u8
            } else {
                0u8
            },
    )
}

/// The all-zero word.
pub open spec fn spec_zero_word() -> Seq<u8> {
    Seq::new(32, |i: int| 0u8)
}

/// The canonical word carries its scalar: decoding the encoding of any
/// 64-bit value gives that value back.
pub proof fn lemma_u64_word_roundtrip(v: u64)
    ensures
        word_u64(spec_u64_word(v)) == v,
{
    lemma2_to64();
    lemma2_to64_rest();
    let vi = v as int;
    lemma_breakdown(vi, 0x100_0000_0000_0000, 0x100);
    lemma_breakdown(vi, 0x1_0000_0000_0000, 0x100);
    lemma_breakdown(vi, 0x100_0000_0000, 0x100);
    lemma_breakdown(vi, 0x1_0000_0000, 0x100);
    lemma_breakdown(vi, 0x100_0000, 0x100);
    lemma_breakdown(vi, 0x1_0000, 0x100);
    lemma_breakdown(vi, 0x100, 0x100);
    lemma_breakdown(vi, 1, 0x100);
    lemma_small_mod(v as nat, 0x1_0000_0000_0000_0000);
}

/// Decoding the low 4 bytes of the canonical 32-bit word gives the value
/// back.
pub proof fn lemma_u32_word_roundtrip(v: u32)
    ensures
        word_u32(spec_u32_word(v)) == v,
{
    lemma2_to64();
    let vi = v as int;
    lemma_breakdown(vi, 0x100_0000, 0x100);
    lemma_breakdown(vi, 0x1_0000, 0x100);
    lemma_breakdown(vi, 0x100, 0x100);
    lemma_breakdown(vi, 1, 0x100);
    lemma_small_mod(v as nat, 0x1_0000_0000);
}

/// Read the 64-bit payload from the low 8 bytes of a word.
pub fn u64_from_abi_word(word: &[u8]) -> (r: u64)
    requires
        word@.len() == 32,
    ensures
        r == word_u64(word@),
{
    let mut acc: u64 = 0;
    acc = acc * 256 + (word[24] as u64);
    acc = acc * 256 + (word[25] as u64);
    acc = acc * 256 + (word[26] as u64);
    acc = acc * 256 + (word[27] as u64);
    acc = acc * 256 + (word[28] as u64);
    acc = acc * 256 + (word[29] as u64);
    acc = acc * 256 + (word[30] as u64);
    acc = acc * 256 + (word[31] as u64);
    acc
}

/// Read the 64-bit payload as a signed two's-complement value.
pub fn i64_from_abi_word(word: &[u8]) -> (r: i64)
    requires
        word@.len() == 32,
    ensures
        r as int == i64_of_bits((word_u64(word@)) as u64),
{
    let bits: u64 = u64_from_abi_word(word);
    arith::to_i64_bits(bits)
}

/// Read the 32-bit payload from the low 4 bytes of a word.
pub fn u32_from_abi_word(word: &[u8]) -> (r: u32)
    requires
        word@.len() == 32,
    ensures
        r == word_u32(word@),
{
    let mut acc: u32 = 0;
    acc = acc * 256 + (word[28] as u32);
    acc = acc * 256 + (word[29] as u32);
    acc = acc * 256 + (word[30] as u32);
    acc = acc * 256 + (word[31] as u32);
    acc
}

fn push_u64_be(out: &mut Vec<u8>, v: u64)
    requires
        old(out)@.len() == 24,
    ensures
        final (out)@.len() == 32,
        forall|i: int| 0 <= i < 24 ==> final (out)@[i] == old(out)@[i],
        forall|i: int|
            24 <= i < 32 ==> final (out)@[i] == ((v as nat / pow2((8 * (31 - i)) as nat))
                % 256) as u8,
{
    proof {
        lemma2_to64();
        lemma2_to64_rest();
        lemma_low_bits_mask_values();
        lemma_u64_shr_is_div(v, 56);
        lemma_u64_shr_is_div(v, 48);
        lemma_u64_shr_is_div(v, 40);
        lemma_u64_shr_is_div(v, 32);
        lemma_u64_shr_is_div(v, 24);
        lemma_u64_shr_is_div(v, 16);
        lemma_u64_shr_is_div(v, 8);
        lemma_u64_low_bits_mask_is_mod(v >> 56u64, 8);
        lemma_u64_low_bits_mask_is_mod(v >> 48u64, 8);
        lemma_u64_low_bits_mask_is_mod(v >> 40u64, 8);
        lemma_u64_low_bits_mask_is_mod(v >> 32u64, 8);
        lemma_u64_low_bits_mask_is_mod(v >> 24u64, 8);
        lemma_u64_low_bits_mask_is_mod(v >> 16u64, 8);
        lemma_u64_low_bits_mask_is_mod(v >> 8u64, 8);
        lemma_u64_low_bits_mask_is_mod(v, 8);
        lemma_small_mod((v >> 56u64) as nat, 0x100);
    }
    out.push(((v >> 56u64) & 0xFF) as u8);
    out.push(((v >> 48u64) & 0xFF) as u8);
    out.push(((v >> 40u64) & 0xFF) as u8);
    out.push(((v >> 32u64) & 0xFF) as u8);
    out.push(((v >> 24u64) & 0xFF) as u8);
    out.push(((v >> 16u64) & 0xFF) as u8);
    out.push(((v >> 8u64) & 0xFF) as u8);
    out.push((v & 0xFF) as u8);
    proof {
        assert(out@[24] == ((v as nat / pow2(56)) % 256) as u8);
        assert(out@[25] == ((v as nat / pow2(48)) % 256) as u8);
        assert(out@[26] == ((v as nat / pow2(40)) % 256) as u8);
        assert(out@[27] == ((v as nat / pow2(32)) % 256) as u8);
        assert(out@[28] == ((v as nat / pow2(24)) % 256) as u8);
        assert(out@[29] == ((v as nat / pow2(16)) % 256) as u8);
        assert(out@[30] == ((v as nat / pow2(8)) % 256) as u8);
        assert(out@[31] == ((v as nat / pow2(0)) % 256) as u8) by {
            assert(pow2(0) == 1) by {
                lemma2_to64();
            }
        }
        assert forall|i: int|
            24 <= i < 32 implies out@[i] == ((v as nat / pow2((8 * (31 - i)) as nat))
            % 256) as u8 by {
            if i == 24 {
            } else if i == 25 {
            } else if i == 26 {
            } else if i == 27 {
            } else if i == 28 {
            } else if i == 29 {
            } else if i == 30 {
            } else {
                assert(i == 31);
            }
        }
    }
}

/// Encode a 64-bit scalar as a 32-byte word.
pub fn u64_to_abi_word(value: u64) -> (r: Vec<u8>)
    ensures
        r@ =~= spec_u64_word(value),
{
    let mut out: Vec<u8> = Vec::new();
    let mut i: usize = 0;
    while i < 24
        invariant
            i <= 24,
            out@.len() == i,
            forall|k: int| 0 <= k < i ==> out@[k] == 0,
        decreases 24 - i,
    {
        out.push(0);
        i = i + 1;
    }
    push_u64_be(&mut out, value);
    out
}

/// Encode a signed 64-bit scalar as a 32-byte word carrying its
/// two's-complement bit pattern.
pub fn i64_to_abi_word(value: i64) -> (r: Vec<u8>)
    ensures
        r@ =~= spec_u64_word(arith_bits_of_i64(value)),
{
    u64_to_abi_word(to_u64_bits(value))
}

/// The 64-bit pattern whose signed reading is `v`.
pub open spec fn arith_bits_of_i64(v: i64) -> u64 {
    if v >= 0 {
        v as u64
    } else {
        (v + 0x1_0000_0000_0000_0000) as u64
    }
}

/// The unsigned word with the same bit pattern as `x`.
pub fn to_u64_bits(x: i64) -> (r: u64)
    ensures
        r == arith_bits_of_i64(x),
        i64_of_bits(r) == x as int,
{
    if x >= 0 {
        x as u64
    } else {
        let shifted: i64 = x - i64::MIN;
        (shifted as u64) + 0x8000_0000_0000_0000u64
    }
}

/// Encode a 32-bit scalar as a 32-byte word.
pub fn u32_to_abi_word(value: u32) -> (r: Vec<u8>)
    ensures
        r@ =~= spec_u32_word(value),
{
    let mut out: Vec<u8> = Vec::new();
    let mut i: usize = 0;
    while i < 28
        invariant
            i <= 28,
            out@.len() == i,
            forall|k: int| 0 <= k < i ==> out@[k] == 0,
        decreases 28 - i,
    {
        out.push(0);
        i = i + 1;
    }
    proof {
        lemma2_to64();
        lemma_low_bits_mask_values();
        vstd::bits::lemma_u32_shr_is_div(value, 24);
        vstd::bits::lemma_u32_shr_is_div(value, 16);
        vstd::bits::lemma_u32_shr_is_div(value, 8);
        vstd::bits::lemma_u32_low_bits_mask_is_mod(value >> 24u32, 8);
        vstd::bits::lemma_u32_low_bits_mask_is_mod(value >> 16u32, 8);
        vstd::bits::lemma_u32_low_bits_mask_is_mod(value >> 8u32, 8);
        vstd::bits::lemma_u32_low_bits_mask_is_mod(value, 8);
        lemma_small_mod((value >> 24u32) as nat, 0x100);
    }
    out.push(((value >> 24u32) & 0xFF) as u8);
    out.push(((value >> 16u32) & 0xFF) as u8);
    out.push(((value >> 8u32) & 0xFF) as u8);
    out.push((value & 0xFF) as u8);
    proof {
        assert(out@[28] == ((value as nat / pow2(24)) % 256) as u8);
        assert(out@[29] == ((value as nat / pow2(16)) % 256) as u8);
        assert(out@[30] == ((value as nat / pow2(8)) % 256) as u8);
        assert(out@[31] == ((value as nat / pow2(0)) % 256) as u8) by {
            assert(pow2(0) == 1) by {
                lemma2_to64();
            }
        }
        assert(out@ =~= spec_u32_word(value)) by {
            assert forall|i: int| 0 <= i < 32 implies out@[i] == spec_u32_word(value)[i] by {
                if 28 <= i < 32 {
                    if i == 28 {
                    } else if i == 29 {
                    } else if i == 30 {
                    } else {
                        assert(i == 31);
                    }
                }
            }
        }
    }
    out
}

/// Encode a boolean as a word with only the least-significant bit
/// possibly set.
pub fn bool_to_abi_word(value: bool) -> (r: Vec<u8>)
    ensures
        r@ =~= spec_bool_word(value),
{
    let mut out: Vec<u8> = Vec::new();
    let mut i: usize = 0;
    while i < 31
        invariant
            i <= 31,
            out@.len() == i,
            forall|k: int| 0 <= k < i ==> out@[k] == 0,
        decreases 31 - i,
    {
        out.push(0);
        i = i + 1;
    }
    if value {
        out.push(1);
    } else {
        out.push(0);
    }
    out
}

/// The all-zero 32-byte word.
pub fn zero_word() -> (r: Vec<u8>)
    ensures
        r@ =~= spec_zero_word(),
{
    let mut out: Vec<u8> = Vec::new();
    let mut i: usize = 0;
    while i < 32
        invariant
            i <= 32,
            out@.len() == i,
            forall|k: int| 0 <= k < i ==> out@[k] == 0,
        decreases 32 - i,
    {
        out.push(0);
        i = i + 1;
    }
    out
}

/// The Optional wire form: a presence word, then the payload word,
/// zeroed when absent.
pub open spec fn spec_option_u64_words(opt: Option<u64>) -> Seq<u8> {
    match opt {
        Some(v) => spec_bool_word(true) + spec_u64_word(v),
        None => spec_bool_word(false) + spec_zero_word(),
    }
}

/// Read an Optional back from its wire form: present when the presence
/// word's low byte is one.
pub open spec fn spec_decode_option_u64(bytes: Seq<u8>) -> Option<u64>
    recommends
        bytes.len() == 64,
{
    if bytes[31] == 1 {
        Some(word_u64(bytes.subrange(32, 64)) as u64)
    } else {
        None
    }
}

/// Decoding the Optional wire form recovers the value exactly, for both
/// the present and the absent case.
pub proof fn lemma_option_u64_roundtrip(opt: Option<u64>)
    ensures
        spec_decode_option_u64(spec_option_u64_words(opt)) == opt,
{
    match opt {
        Some(v) => {
            lemma_u64_word_roundtrip(v);
            assert(spec_option_u64_words(opt).subrange(32, 64) =~= spec_u64_word(v));
        },
        None => {
        },
    }
}

/// Encode an optional 64-bit scalar.
pub fn encode_option_u64(opt: Option<u64>) -> (r: Vec<u8>)
    ensures
        r@ =~= spec_option_u64_words(opt),
{
    let mut out: Vec<u8>;
    match opt {
        Some(val) => {
            out = bool_to_abi_word(true);
            let mut payload = u64_to_abi_word(val);
            out.append(&mut payload);
        },
        None => {
            out = bool_to_abi_word(false);
            let mut payload = zero_word();
            out.append(&mut payload);
        },
    }
    out
}

/// Encode an optional signed 64-bit scalar; the payload carries the
/// two's-complement bit pattern.
pub fn encode_option_i64(opt: Option<i64>) -> (r: Vec<u8>)
    ensures
        r@ =~= ({
            match opt {
                Some(v) => spec_bool_word(true) + spec_u64_word(arith_bits_of_i64(v)),
                None => spec_bool_word(false) + spec_zero_word(),
            }
        }),
{
    match opt {
        Some(val) => {
            let mut out = bool_to_abi_word(true);
            let mut payload = i64_to_abi_word(val);
            out.append(&mut payload);
            out
        },
        None => {
            let mut out = bool_to_abi_word(false);
            let mut payload = zero_word();
            out.append(&mut payload);
            out
        },
    }
}

/// Encode an optional 32-bit scalar.
pub fn encode_option_u32(opt: Option<u32>) -> (r: Vec<u8>)
    ensures
        r@ =~= ({
            match opt {
                Some(v) => spec_bool_word(true) + spec_u32_word(v),
                None => spec_bool_word(false) + spec_zero_word(),
            }
        }),
{
    match opt {
        Some(val) => {
            let mut out = bool_to_abi_word(true);
            let mut payload = u32_to_abi_word(val);
            out.append(&mut payload);
            out
        },
        None => {
            let mut out = bool_to_abi_word(false);
            let mut payload = zero_word();
            out.append(&mut payload);
            out
        },
    }
}

/// The Point wire form of a coordinate pair: the sentinel pair of
/// all-maximum words stands for the identity.
pub open spec fn spec_point_words(p: Point) -> Seq<u8> {
    match p {
        Point::Infinity => spec_u64_word(u64::MAX) + spec_u64_word(u64::MAX),
        Point::Coordinate { x, y } => spec_u64_word(x) + spec_u64_word(y),
    }
}

/// Read a point back from two words: the sentinel pair denotes the
/// identity, anything else a coordinate pair. Only an exact canonical
/// sentinel word matches: dirty high bytes make a coordinate reading.
pub open spec fn spec_decode_point(xw: Seq<u8>, yw: Seq<u8>) -> Point
    recommends
        xw.len() == 32,
        yw.len() == 32,
{
    if xw == spec_u64_word(u64::MAX) && yw == spec_u64_word(u64::MAX) {
        Point::Infinity
    } else {
        Point::Coordinate { x: word_u64(xw) as u64, y: word_u64(yw) as u64 }
    }
}

/// Decoding the Point wire form recovers the point, for the identity and
/// for every coordinate pair but the one that collides with the
/// sentinel.
pub proof fn lemma_point_roundtrip(p: Point)
    requires
        p != (Point::Coordinate { x: u64::MAX, y: u64::MAX }),
    ensures
        spec_decode_point(
            spec_point_words(p).subrange(0, 32),
            spec_point_words(p).subrange(32, 64),
        ) == p,
{
    match p {
        Point::Infinity => {
            assert(spec_point_words(p).subrange(0, 32) =~= spec_u64_word(u64::MAX));
            assert(spec_point_words(p).subrange(32, 64) =~= spec_u64_word(u64::MAX));
        },
        Point::Coordinate { x, y } => {
            assert(spec_point_words(p).subrange(0, 32) =~= spec_u64_word(x));
            assert(spec_point_words(p).subrange(32, 64) =~= spec_u64_word(y));
            lemma_u64_word_roundtrip(x);
            lemma_u64_word_roundtrip(y);
            lemma_u64_word_roundtrip(u64::MAX);
            if x != u64::MAX {
                assert(spec_u64_word(x) != spec_u64_word(u64::MAX)) by {
                    if spec_u64_word(x) == spec_u64_word(u64::MAX) {
                        assert(word_u64(spec_u64_word(x)) == word_u64(spec_u64_word(u64::MAX)));
                    }
                }
            } else {
                assert(y != u64::MAX);
                assert(spec_u64_word(y) != spec_u64_word(u64::MAX)) by {
                    if spec_u64_word(y) == spec_u64_word(u64::MAX) {
                        assert(word_u64(spec_u64_word(y)) == word_u64(spec_u64_word(u64::MAX)));
                    }
                }
            }
        },
    }
}

/// Decode a point from two 32-byte words.
pub fn point_from_abi_words(x_word: &[u8], y_word: &[u8]) -> (r: Point)
    requires
        x_word@.len() == 32,
        y_word@.len() == 32,
    ensures
        r == spec_decode_point(x_word@, y_word@),
{
    let sentinel: Vec<u8> = u64_to_abi_word(u64::MAX);
    let mut is_sentinel: bool = true;
    let mut i: usize = 0;
    while i < 32
        invariant
            i <= 32,
            x_word@.len() == 32,
            y_word@.len() == 32,
            sentinel@ =~= spec_u64_word(u64::MAX),
            is_sentinel == (forall|k: int|
                0 <= k < i ==> x_word@[k] == spec_u64_word(u64::MAX)[k] && y_word@[k]
                    == spec_u64_word(u64::MAX)[k]),
        decreases 32 - i,
    {
        if x_word[i] != sentinel[i] || y_word[i] != sentinel[i] {
            is_sentinel = false;
        }
        i = i + 1;
    }
    if is_sentinel {
        proof {
            assert(x_word@ =~= spec_u64_word(u64::MAX));
            assert(y_word@ =~= spec_u64_word(u64::MAX));
        }
        Point::Infinity
    } else {
        proof {
            assert(!(x_word@ == spec_u64_word(u64::MAX) && y_word@ == spec_u64_word(u64::MAX)));
        }
        Point::Coordinate { x: u64_from_abi_word(x_word), y: u64_from_abi_word(y_word) }
    }
}

/// Encode an optional point: a presence word, then the two coordinate
/// words (or the identity sentinel), zeroed words when absent.
pub fn encode_option_point(opt: Option<Point>) -> (r: Vec<u8>)
    ensures
        r@ =~= ({
            match opt {
                Some(p) => spec_bool_word(true) + spec_point_words(p),
                None => spec_bool_word(false) + spec_zero_word() + spec_zero_word(),
            }
        }),
{
    match opt {
        Some(p) => {
            let mut out = bool_to_abi_word(true);
            match p {
                Point::Coordinate { x, y } => {
                    let mut xw = u64_to_abi_word(x);
                    let mut yw = u64_to_abi_word(y);
                    out.append(&mut xw);
                    out.append(&mut yw);
                },
                Point::Infinity => {
                    let mut xw = u64_to_abi_word(u64::MAX);
                    let mut yw = u64_to_abi_word(u64::MAX);
                    out.append(&mut xw);
                    out.append(&mut yw);
                },
            }
            out
        },
        None => {
            let mut out = bool_to_abi_word(false);
            let mut zw1 = zero_word();
            let mut zw2 = zero_word();
            out.append(&mut zw1);
            out.append(&mut zw2);
            out
        },
    }
}

} // verus!
