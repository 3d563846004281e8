//! Lookup-table trigonometry over tenths of a degree, pre-scaled by
//! 10000 in the table and renormalized to the scale-100 fixed-point
//! domain at output; resolution below one degree is not interpolated.
use vstd::prelude::*;

verus! {

/// The sine table for whole degrees 0 to 90, scaled by 10000.
pub open spec fn sine_lut(i: int) -> u64 {
    if i == 0 {
        0
    } else if i == 1 {
        175
    } else if i == 2 {
        349
    } else if i == 3 {
        523
    } else if i == 4 {
        698
    } else if i == 5 {
        872
    } else if i == 6 {
        1045
    } else if i == 7 {
        1219
    } else if i == 8 {
        1392
    } else if i == 9 {
        1564
    } else if i == 10 {
        1736
    } else if i == 11 {
        1908
    } else if i == 12 {
        2079
    } else if i == 13 {
        2250
    } else if i == 14 {
        2419
    } else if i == 15 {
        2588
    } else if i == 16 {
        2756
    } else if i == 17 {
        2924
    } else if i == 18 {
        3090
    } else if i == 19 {
        3256
    } else if i == 20 {
        3420
    } else if i == 21 {
        3584
    } else if i == 22 {
        3746
    } else if i == 23 {
        3907
    } else if i == 24 {
        4067
    } else if i == 25 {
        4226
    } else if i == 26 {
        4384
    } else if i == 27 {
        4540
    } else if i == 28 {
        4695
    } else if i == 29 {
        4848
    } else if i == 30 {
        5000
    } else if i == 31 {
        5150
    } else if i == 32 {
        5299
    } else if i == 33 {
        5446
    } else if i == 34 {
        5592
    } else if i == 35 {
        5736
    } else if i == 36 {
        5878
    } else if i == 37 {
        6018
    } else if i == 38 {
        6157
    } else if i == 39 {
        6293
    } else if i == 40 {
        6428
    } else if i == 41 {
        6561
    } else if i == 42 {
        6691
    } else if i == 43 {
        6820
    } else if i == 44 {
        6947
    } else if i == 45 {
        7071
    } else if i == 46 {
        7193
    } else if i == 47 {
        7314
    } else if i == 48 {
        7431
    } else if i == 49 {
        7547
    } else if i == 50 {
        7660
    } else if i == 51 {
        7771
    } else if i == 52 {
        7880
    } else if i == 53 {
        7986
    } else if i == 54 {
        8090
    } else if i == 55 {
        8192
    } else if i == 56 {
        8290
    } else if i == 57 {
        8387
    } else if i == 58 {
        8480
    } else if i == 59 {
        8572
    } else if i == 60 {
        8660
    } else if i == 61 {
        8746
    } else if i == 62 {
        8829
    } else if i == 63 {
        8910
    } else if i == 64 {
        8988
    } else if i == 65 {
        9063
    } else if i == 66 {
        9135
    } else if i == 67 {
        9205
    } else if i == 68 {
        9272
    } else if i == 69 {
        9336
    } else if i == 70 {
        9397
    } else if i == 71 {
        9455
    } else if i == 72 {
        9511
    } else if i == 73 {
        9563
    } else if i == 74 {
        9613
    } else if i == 75 {
        9659
    } else if i == 76 {
        9703
    } else if i == 77 {
        9744
    } else if i == 78 {
        9781
    } else if i == 79 {
        9816
    } else if i == 80 {
        9848
    } else if i == 81 {
        9877
    } else if i == 82 {
        9903
    } else if i == 83 {
        9925
    } else if i == 84 {
        9945
    } else if i == 85 {
        9962
    } else if i == 86 {
        9976
    } else if i == 87 {
        9986
    } else if i == 88 {
        9994
    } else if i == 89 {
        9998
    } else {
        10000
    }
}

fn sine_lut_at(i: u32) -> (r: u64)
    requires
        i <= 90,
    ensures
        r == sine_lut(i as int),
{
    match i {
        0 => 0,
        1 => 175,
        2 => 349,
        3 => 523,
        4 => 698,
        5 => 872,
        6 => 1045,
        7 => 1219,
        8 => 1392,
        9 => 1564,
        10 => 1736,
        11 => 1908,
        12 => 2079,
        13 => 2250,
        14 => 2419,
        15 => 2588,
        16 => 2756,
        17 => 2924,
        18 => 3090,
        19 => 3256,
        20 => 3420,
        21 => 3584,
        22 => 3746,
        23 => 3907,
        24 => 4067,
        25 => 4226,
        26 => 4384,
        27 => 4540,
        28 => 4695,
        29 => 4848,
        30 => 5000,
        31 => 5150,
        32 => 5299,
        33 => 5446,
        34 => 5592,
        35 => 5736,
        36 => 5878,
        37 => 6018,
        38 => 6157,
        39 => 6293,
        40 => 6428,
        41 => 6561,
        42 => 6691,
        43 => 6820,
        44 => 6947,
        45 => 7071,
        46 => 7193,
        47 => 7314,
        48 => 7431,
        49 => 7547,
        50 => 7660,
        51 => 7771,
        52 => 7880,
        53 => 7986,
        54 => 8090,
        55 => 8192,
        56 => 8290,
        57 => 8387,
        58 => 8480,
        59 => 8572,
        60 => 8660,
        61 => 8746,
        62 => 8829,
        63 => 8910,
        64 => 8988,
        65 => 9063,
        66 => 9135,
        67 => 9205,
        68 => 9272,
        69 => 9336,
        70 => 9397,
        71 => 9455,
        72 => 9511,
        73 => 9563,
        74 => 9613,
        75 => 9659,
        76 => 9703,
        77 => 9744,
        78 => 9781,
        79 => 9816,
        80 => 9848,
        81 => 9877,
        82 => 9903,
        83 => 9925,
        84 => 9945,
        85 => 9962,
        86 => 9976,
        87 => 9986,
        88 => 9994,
        89 => 9998,
        _ => 10000,
    }
}

/// The table sine of an angle in tenths of a degree: the angle is folded
/// into one turn, split into a quadrant and an offset, quadrants 1 and 3
/// read the table mirrored, quadrants 2 and 3 negate, and the table value
/// is renormalized from scale 10000 to scale 100.
pub open spec fn spec_sin(angle: u32) -> int {
    let a = (angle % 3600) as int;
    let q = a / 900;
    let d = (a % 900) / 10;
    let v = sine_lut(if q == 1 || q == 3 {
        90 - d
    } else {
        d
    }) as int / 100;
    if q >= 2 {
        -v
    } else {
        v
    }
}

/// The table cosine: the sine phase-shifted by 90 degrees with wrapping
/// addition on the tenths-of-a-degree domain.
pub open spec fn spec_cos(angle: u32) -> int {
    spec_sin(((angle + 900) % 0x1_0000_0000) as u32)
}

/// Fixed-point sine of an angle in tenths of a degree.
pub fn sin(angle_deg_times_10: u32) -> (r: i64)
    ensures
        r == spec_sin(angle_deg_times_10),
        -100 <= r <= 100,
{
    let angle: u32 = angle_deg_times_10 % 3600;
    let quadrant: u32 = angle / 900;
    let index: u32 = angle % 900;
    let d: u32 = index / 10;
    let mirrored: u32 = if quadrant == 1 || quadrant == 3 {
        90 - d
    } else {
        d
    };
    let v: u64 = sine_lut_at(mirrored) / 100;
    proof {
        assert(sine_lut(mirrored as int) <= 10000);
    }
    if quadrant >= 2 {
        -(v as i64)
    } else {
        v as i64
    }
}

/// Fixed-point cosine of an angle in tenths of a degree.
pub fn cos(angle_deg_times_10: u32) -> (r: i64)
    ensures
        r == spec_cos(angle_deg_times_10),
        -100 <= r <= 100,
{
    let shifted: u32 = angle_deg_times_10.wrapping_add(900);
    sin(shifted)
}

} // verus!
