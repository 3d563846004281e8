//! Exercises the fixed-point, trigonometric, geometric and
//! number-theoretic engines on concrete values.

fn modexp_reference(base: u64, exp: u64, modulus: u64) -> u64 {
    let mut result: u128 = 1 % (modulus as u128);
    for _ in 0..exp {
        result = result * (base as u128) % (modulus as u128);
    }
    result as u64
}

#[test]
fn modexp_matches_reference_power() {
    assert_eq!(mathcore::modexp(7, 13, 101), modexp_reference(7, 13, 101));
    assert_eq!(mathcore::modexp(2, 64, 1_000_000_007), modexp_reference(2, 64, 1_000_000_007));
    assert_eq!(
        mathcore::modexp(0xFFFF_FFFF_FFFF_FFFF, 3, 0xFFFF_FFFF_FFFF_FFC5),
        modexp_reference(0xFFFF_FFFF_FFFF_FFFF, 3, 0xFFFF_FFFF_FFFF_FFC5)
    );
    assert_eq!(mathcore::modexp(10, 0, 7), 1);
}

#[test]
fn modexp_zero_exponent_and_unit_modulus() {
    assert_eq!(mathcore::modexp(5, 0, 7), 1);
    assert_eq!(mathcore::modexp(123456, 0, 2), 1);
    assert_eq!(mathcore::modexp(5, 3, 1), 0);
    assert_eq!(mathcore::modexp(0, 0, 1), 0);
}

#[test]
fn gcd_lcm_values() {
    assert_eq!(mathcore::gcd(48, 18), 6);
    assert_eq!(mathcore::lcm(4, 6), 12);
    assert_eq!(mathcore::gcd(123456789, 0), 123456789);
    assert_eq!(mathcore::gcd(0, 0), 0);
    assert_eq!(mathcore::lcm(0, 5), 0);
    assert_eq!(mathcore::lcm(7, 0), 0);
}

#[test]
fn primality_verdicts() {
    assert!(mathcore::is_prime(97));
    assert!(!mathcore::is_prime(100));
    assert!(mathcore::is_prime(2));
    assert!(!mathcore::is_prime(1));
    assert!(!mathcore::is_prime(0));
    assert!(mathcore::is_prime(3));
    assert!(!mathcore::is_prime(561));
    assert!(mathcore::is_prime(2_305_843_009_213_693_951));
    assert!(!mathcore::is_prime(2_305_843_009_213_693_953));
    assert!(mathcore::is_prime(18_446_744_073_709_551_557));
}

#[test]
fn modular_inverse_values() {
    assert_eq!(mathcore::modinv(3, 11), Some(4));
    assert_eq!(mathcore::modinv(2, 4), None);
    assert_eq!(mathcore::modinv(0, 5), None);
    assert_eq!(mathcore::modinv(7, 1), Some(0));
    assert_eq!(mathcore::modinv(5, 0), None);
    assert_eq!(mathcore::modinv(10, 17), Some(12));
    // negative arguments are reduced into the field first
    assert_eq!(mathcore::modinv(-3, 11), Some(7));
    assert_eq!(mathcore::modinv(-2, 3), Some(1));
    // a negative modulus admits no representative in [0, m)
    assert_eq!(mathcore::modinv(3, -11), None);
}

#[test]
fn curve_identity_and_doubling() {
    let p = mathcore::Point::Coordinate { x: 5, y: 1 };
    assert_eq!(mathcore::point_add(p, mathcore::Point::Infinity, 2, 17), Some(p));
    assert_eq!(mathcore::point_add(mathcore::Point::Infinity, p, 2, 17), Some(p));
    let doubled = mathcore::point_double(p, 2, 17);
    assert_eq!(doubled, mathcore::point_add(p, p, 2, 17));
    assert_eq!(doubled, Some(mathcore::Point::Coordinate { x: 6, y: 3 }));
}

#[test]
fn curve_vertical_and_degenerate_cases() {
    let p = mathcore::Point::Coordinate { x: 5, y: 1 };
    let q = mathcore::Point::Coordinate { x: 5, y: 16 };
    assert_eq!(mathcore::point_add(p, q, 2, 17), Some(mathcore::Point::Infinity));
    let flat = mathcore::Point::Coordinate { x: 3, y: 0 };
    assert_eq!(mathcore::point_double(flat, 2, 17), Some(mathcore::Point::Infinity));
    assert_eq!(mathcore::point_add(p, q, 2, 0), None);
    let r = mathcore::Point::Coordinate { x: 2, y: 3 };
    assert_eq!(
        mathcore::point_double(mathcore::Point::Infinity, 1, 15),
        Some(mathcore::Point::Infinity)
    );
    // modulus 15 is composite: the needed inverse of 2*3 = 6 does not exist
    assert_eq!(mathcore::point_double(r, 1, 15), None);
}

fn clmul_reference(a: u64, b: u64) -> u128 {
    let mut acc: u128 = 0;
    for i in 0..64 {
        if (b >> i) & 1 == 1 {
            acc ^= (a as u128) << i;
        }
    }
    acc
}

#[test]
fn carry_less_multiplication() {
    assert_eq!(mathcore::clmul(0b101, 0b110), 0b11110);
    assert_eq!(mathcore::clmul(0, 0xDEAD), 0);
    let a: u64 = 0x9E37_79B9_7F4A_7C15;
    let b: u64 = 0x1234_5678_9ABC_DEF0;
    assert_eq!(mathcore::clmul(a, b), clmul_reference(a, b));
}

#[test]
fn square_root_is_greatest_root_of_scaled_input() {
    for &n in &[0u64, 1, 2, 100, 200, 10_000, 123_456, 184_467_440_737_095_516] {
        let r = mathcore::square_root(n);
        let scaled = (n as u128) * 100;
        assert!((r as u128) * (r as u128) <= scaled);
        assert!(((r + 1) as u128) * ((r + 1) as u128) > scaled);
    }
    assert_eq!(mathcore::square_root(0), 0);
    assert_eq!(mathcore::square_root(200), 141);
    assert_eq!(mathcore::square_root(10_000), 1_000);
}

#[test]
fn triangle_membership() {
    let (ax, ay, bx, by, cx, cy) = (0u64, 0u64, 10u64, 0u64, 0u64, 10u64);
    assert!(mathcore::is_point_in_triangle(ax, ay, ax, ay, bx, by, cx, cy));
    assert!(mathcore::is_point_in_triangle(bx, by, ax, ay, bx, by, cx, cy));
    assert!(mathcore::is_point_in_triangle(cx, cy, ax, ay, bx, by, cx, cy));
    assert!(mathcore::is_point_in_triangle(3, 3, ax, ay, bx, by, cx, cy));
    assert!(!mathcore::is_point_in_triangle(100, 100, ax, ay, bx, by, cx, cy));
    // clockwise ordering counts as inside too
    assert!(mathcore::is_point_in_triangle(3, 3, ax, ay, cx, cy, bx, by));
}

#[test]
fn fixed_point_arithmetic() {
    assert_eq!(mathcore::mul(300, 200), 600);
    assert_eq!(mathcore::mul(u64::MAX, 2), u64::MAX / 100);
    assert_eq!(mathcore::div(600, 200), 300);
    assert_eq!(mathcore::div(5, 0), 0);
    assert_eq!(mathcore::square(250), 625);
    assert_eq!(mathcore::clamp(5, 10, 20), 10);
    assert_eq!(mathcore::clamp(25, 10, 20), 20);
    assert_eq!(mathcore::clamp(15, 10, 20), 15);
    assert_eq!(mathcore::lerp(10, 20, 50), 15);
    assert_eq!(mathcore::lerp(10, 20, 200), 20);
    assert_eq!(mathcore::lerp(20, 10, 50), 15);
    assert_eq!(mathcore::lerp(7, 7, 30), 7);
}

#[test]
fn trigonometric_table() {
    assert_eq!(mathcore::sin(0), 0);
    assert_eq!(mathcore::sin(900), 100);
    assert_eq!(mathcore::sin(1800), 0);
    assert_eq!(mathcore::sin(2700), -100);
    assert_eq!(mathcore::sin(450), 70);
    assert_eq!(mathcore::sin(300), 50);
    assert_eq!(mathcore::cos(0), 100);
    assert_eq!(mathcore::cos(900), 0);
    assert_eq!(mathcore::cos(1800), -100);
    assert_eq!(mathcore::cos(600), 50);
    assert_eq!(mathcore::sin(3600), 0);
    assert_eq!(mathcore::sin(4050), 70);
    assert_eq!(mathcore::cos(u32::MAX), mathcore::sin(u32::MAX.wrapping_add(900)));
}

#[test]
fn vector_algebra() {
    assert_eq!(mathcore::dot_product(100, 200, 300, 400), 1100);
    assert_eq!(mathcore::cross_product(100, 0, 0, 100), 100);
    assert_eq!(mathcore::cross_product(0, 100, 100, 0), -100);
    assert_eq!(mathcore::squared_distance(0, 0, 300, 400), 2500);
    assert_eq!(mathcore::distance_between(0, 0, 300, 400), 500);
    assert_eq!(mathcore::magnitude(300, 400), 500);
    assert_eq!(mathcore::add_vectors(u64::MAX, 1, 1, 0), (u64::MAX, 1));
    assert_eq!(mathcore::subtract_vectors(5, 3, 10, 1), (0, 2));
    assert_eq!(mathcore::scale_vector(300, 400, 200), (600, 800));
    assert_eq!(mathcore::normalize_vector(300, 400), (60, 80));
    assert_eq!(mathcore::normalize_vector(0, 0), (0, 0));
    assert_eq!(mathcore::clamp_vector_magnitude(300, 400, 250), (150, 200));
    assert_eq!(mathcore::clamp_vector_magnitude(300, 400, 600), (300, 400));
}

#[test]
fn vector_rotation_and_reflection() {
    assert_eq!(mathcore::rotate_vector(100, 0, 900), (0, 100));
    assert_eq!(mathcore::rotate_vector(100, 0, 1800), (-100, 0));
    assert_eq!(mathcore::rotate_vector(100, 0, 0), (100, 0));
    assert_eq!(mathcore::reflect_vector(100, 0, 100, 0), (-100, 0));
    assert_eq!(mathcore::reflect_vector(100, 0, 0, 100), (100, 0));
}

#[test]
fn point_in_rect_and_circle() {
    assert!(mathcore::is_point_in_rect(5, 5, 0, 0, 10, 10));
    assert!(mathcore::is_point_in_rect(10, 10, 0, 0, 10, 10));
    assert!(!mathcore::is_point_in_rect(11, 5, 0, 0, 10, 10));
    assert!(mathcore::is_point_in_circle(3, 4, 0, 0, 5));
    assert!(!mathcore::is_point_in_circle(4, 4, 0, 0, 5));
    assert!(mathcore::is_point_in_circle(0, 0, 0, 0, 0));
}

#[test]
fn factorial_domain() {
    assert_eq!(mathcore::factorial(0), Some(1));
    assert_eq!(mathcore::factorial(1), Some(1));
    assert_eq!(mathcore::factorial(5), Some(120));
    assert_eq!(mathcore::factorial(20), Some(2_432_902_008_176_640_000));
    assert_eq!(mathcore::factorial(21), None);
    assert_eq!(mathcore::factorial(u64::MAX), None);
}

#[test]
fn binomial_coefficients() {
    assert_eq!(mathcore::n_choose_k(5, 2), 10);
    assert_eq!(mathcore::n_choose_k(5, 3), 10);
    assert_eq!(mathcore::n_choose_k(5, 0), 1);
    assert_eq!(mathcore::n_choose_k(5, 5), 1);
    assert_eq!(mathcore::n_choose_k(3, 5), 0);
    assert_eq!(mathcore::n_choose_k(52, 5), 2_598_960);
}

#[test]
fn integer_logarithms() {
    assert_eq!(mathcore::log2_floor(0), None);
    assert_eq!(mathcore::log2_floor(1), Some(0));
    assert_eq!(mathcore::log2_floor(1024), Some(10));
    assert_eq!(mathcore::log2_floor(1023), Some(9));
    assert_eq!(mathcore::log2_floor(u64::MAX), Some(63));
    assert_eq!(mathcore::log10_floor(0), 0);
    assert_eq!(mathcore::log10_floor(1), 0);
    assert_eq!(mathcore::log10_floor(999), 2);
    assert_eq!(mathcore::log10_floor(1000), 3);
    assert_eq!(mathcore::log10_floor(u64::MAX), 19);
}

#[test]
fn bit_utilities() {
    assert_eq!(mathcore::popcount(0), 0);
    assert_eq!(mathcore::popcount(0b1011), 3);
    assert_eq!(mathcore::popcount(u64::MAX), 64);
    assert_eq!(mathcore::reverse_bits(1), 1u64 << 63);
    assert_eq!(mathcore::reverse_bits(0), 0);
    assert_eq!(mathcore::reverse_bits(0x8000_0000_0000_0000), 1);
    assert_eq!(mathcore::rotl64(1, 1), 2);
    assert_eq!(mathcore::rotl64(1, 64), 1);
    assert_eq!(mathcore::rotr64(1, 1), 1u64 << 63);
    assert_eq!(mathcore::rotl64(0xABCD_EF01_2345_6789, 16), 0xEF01_2345_6789_ABCD);
}

#[test]
fn totient_values() {
    assert_eq!(mathcore::phi(0), 0);
    assert_eq!(mathcore::phi(1), 1);
    assert_eq!(mathcore::phi(10), 4);
    assert_eq!(mathcore::phi(13), 12);
    assert_eq!(mathcore::phi(36), 12);
    assert_eq!(mathcore::phi(97), 96);
}

#[test]
fn constant_time_comparison() {
    assert!(mathcore::constant_time_eq(&[1, 2, 3], &[1, 2, 3]));
    assert!(!mathcore::constant_time_eq(&[1, 2, 3], &[1, 2, 4]));
    assert!(!mathcore::constant_time_eq(&[1, 2], &[1, 2, 3]));
    assert!(mathcore::constant_time_eq(&[], &[]));
}

#[test]
fn stream_generator_steps() {
    let mut from_zero = mathcore::Xorshift64Star::new(0);
    let mut from_one = mathcore::Xorshift64Star::new(1);
    assert_eq!(from_zero.next(), from_one.next());

    let mut s: u64 = 42;
    s ^= s >> 12;
    s ^= s << 25;
    s ^= s >> 27;
    let expected = s.wrapping_mul(0x2545_F491_4F6C_DD1D);
    let mut rng = mathcore::Xorshift64Star::new(42);
    assert_eq!(rng.next(), expected);
    let second = rng.next();
    assert_ne!(second, expected);
}

#[test]
fn trajectory_coefficients() {
    assert_eq!(mathcore::get_projectile_trajectory_coefficients(450, 1000, 981), (100, -10));
    let vertical = mathcore::get_projectile_trajectory_coefficients(900, 1000, 981);
    assert_eq!(vertical, (i64::MAX, 0));
    let no_speed = mathcore::get_projectile_trajectory_coefficients(450, 0, 981);
    assert_eq!(no_speed.1, i64::MIN);
}

#[test]
fn signed_fixed_point_helpers() {
    assert_eq!(mathcore::mul_signed(300, -200), -600);
    assert_eq!(mathcore::div_signed(100, -50), -200);
    assert_eq!(mathcore::div_signed(7, 0), i64::MAX);
    assert_eq!(mathcore::square_signed(-50), 25);
}
