//! Number-theoretic primitives: Euclidean gcd/lcm, modular exponentiation,
//! modular inverse, deterministic Miller-Rabin primality, factorial,
//! binomial coefficient, Euler's totient and integer logarithms.
use vstd::prelude::*;

use vstd::arithmetic::div_mod::lemma_fundamental_div_mod;
use vstd::arithmetic::div_mod::lemma_mul_mod_noop_left;
use vstd::arithmetic::div_mod::lemma_mul_mod_noop_right;
use vstd::arithmetic::div_mod::lemma_add_mod_noop;
use vstd::arithmetic::div_mod::lemma_fundamental_div_mod_converse;
use vstd::arithmetic::div_mod::lemma_mod_add_multiples_vanish;
use vstd::arithmetic::div_mod::lemma_mod_multiples_basic;
use vstd::arithmetic::div_mod::lemma_mod_self_0;
use vstd::arithmetic::div_mod::lemma_small_mod;
use vstd::arithmetic::div_mod::lemma_sub_mod_noop;
use vstd::arithmetic::mul::lemma_mul_is_distributive_sub;
use vstd::arithmetic::mul::lemma_mul_is_associative;
use vstd::arithmetic::power::lemma_pow_mod_noop;
use vstd::arithmetic::power::lemma_pow_multiplies;
use vstd::arithmetic::power::pow;
use vstd::arithmetic::power2::pow2;

use crate::arith;
use crate::arith::sat_mul_u64;

verus! {

/// The greatest common divisor, by the Euclidean recursion; the divisor
/// of `a` and 0 is `a` itself.
pub open spec fn spec_gcd(a: nat, b: nat) -> nat
    decreases b,
{
    if b == 0 {
        a
    } else {
        spec_gcd(b, a % b)
    }
}

/// Iterative Euclidean greatest common divisor.
pub fn gcd(a: u64, b: u64) -> (r: u64)
    ensures
        r == spec_gcd(a as nat, b as nat),
{
    let mut x: u64 = a;
    let mut y: u64 = b;
    while y != 0
        invariant
            spec_gcd(x as nat, y as nat) == spec_gcd(a as nat, b as nat),
        decreases y,
    {
        let temp: u64 = y;
        y = x % y;
        x = temp;
    }
    x
}

/// The gcd of any value and zero is that value.
pub proof fn lemma_gcd_zero(a: u64)
    ensures
        spec_gcd(a as nat, 0) == a,
{
}

/// Least common multiple: zero when either input is zero, else the
/// saturated product of `a / gcd(a, b)` with `b`.
pub fn lcm(a: u64, b: u64) -> (r: u64)
    ensures
        a == 0 || b == 0 ==> r == 0,
        a != 0 && b != 0 ==> r == sat_mul_u64((a as nat / spec_gcd(a as nat, b as nat)) as u64, b),
{
    if a == 0 || b == 0 {
        return 0;
    }
    let g: u64 = gcd(a, b);
    proof {
        lemma_gcd_positive(a as nat, b as nat);
    }
    arith::mul_sat_u64(a / g, b)
}

/// A gcd of a nonzero pair is nonzero.
proof fn lemma_gcd_positive(a: nat, b: nat)
    requires
        a > 0 || b > 0,
    ensures
        spec_gcd(a, b) > 0,
    decreases b,
{
    if b == 0 {
    } else {
        lemma_gcd_positive(b, a % b);
    }
}

/// Modular exponentiation by square-and-multiply over a 128-bit
/// accumulator; a modulus of 1 gives 0.
pub fn modexp(base: u64, exp: u64, modulus: u64) -> (r: u64)
    requires
        modulus >= 1,
    ensures
        r as int == pow(base as int, exp as nat) % (modulus as int),
        r < modulus,
{
    if modulus == 1 {
        proof {
            lemma_fundamental_div_mod(pow(base as int, exp as nat), 1);
        }
        return 0;
    }
    let m128: u128 = modulus as u128;
    let mut result: u128 = 1;
    let mut b: u128 = (base % modulus) as u128;
    let mut e: u64 = exp;
    proof {
        lemma_pow_mod_noop(base as int, exp as nat, modulus as int);
    }
    while e > 0
        invariant
            m128 == modulus,
            2 <= m128,
            result < m128,
            b < m128,
            (result as int * pow(b as int, e as nat)) % (m128 as int) == pow(
                base as int,
                exp as nat,
            ) % (modulus as int),
        decreases e,
    {
        let ghost r0 = result as int;
        let ghost b0 = b as int;
        let ghost e0 = e as nat;
        let ghost m = m128 as int;
        if e % 2 == 1 {
            proof {
                assert(result * b <= u128::MAX) by (nonlinear_arith)
                    requires
                        result < m128 && b < m128 && m128 <= u64::MAX,
                ;
            }
            result = (result * b) % m128;
            proof {
                vstd::arithmetic::power::lemma_pow_adds(b0, 1nat, (e0 - 1) as nat);
                vstd::arithmetic::power::lemma_pow1(b0);
                assert(pow(b0, e0) == b0 * pow(b0, (e0 - 1) as nat));
                lemma_mul_mod_noop_left(r0 * b0, pow(b0, (e0 - 1) as nat), m);
                lemma_mul_is_associative(r0, b0, pow(b0, (e0 - 1) as nat));
                assert((result as int * pow(b0, (e0 - 1) as nat)) % m == (r0 * pow(b0, e0)) % m);
            }
        }
        proof {
            assert(b * b <= u128::MAX) by (nonlinear_arith)
                requires
                    b < m128 && m128 <= u64::MAX,
            ;
        }
        let ghost r1 = result as int;
        e = e / 2;
        b = (b * b) % m128;
        proof {
            let e1 = e as nat;
            // pow(b0 * b0, e1) == pow(b0, 2 * e1), and 2 * e1 is e0 with its
            // low bit cleared.
            lemma_pow_multiplies(b0, 2, e1);
            vstd::arithmetic::power::lemma_square_is_pow2(b0);
            lemma_pow_mod_noop(b0 * b0, e1, m);
            lemma_mul_mod_noop_right(r1, pow((b0 * b0) % m, e1), m);
            lemma_mul_mod_noop_right(r1, pow(b0 * b0, e1), m);
            assert((r1 * pow(b as int, e1)) % m == (r1 * pow(b0, 2 * e1)) % m);
            if e0 % 2 == 1 {
                assert(2 * e1 == e0 - 1);
            } else {
                assert(2 * e1 == e0);
            }
        }
    }
    proof {
        vstd::arithmetic::power::lemma_pow0(b as int);
        assert(result as int * 1 == result as int);
        lemma_small_mod(result as nat, m128 as nat);
    }
    result as u64
}

/// Any power taken modulo 1 is zero: the `modulus = 1` case of modular
/// exponentiation.
pub proof fn lemma_pow_mod_one_is_zero(b: u64, e: u64)
    ensures
        pow(b as int, e as nat) % 1int == 0,
{
    lemma_fundamental_div_mod(pow(b as int, e as nat), 1);
}

/// A zeroth power taken modulo any `m > 1` is one: the `exp = 0` case of
/// modular exponentiation.
pub proof fn lemma_pow_zero_mod_is_one(b: u64, m: u64)
    requires
        m > 1,
    ensures
        pow(b as int, 0nat) % (m as int) == 1,
{
    vstd::arithmetic::power::lemma_pow0(b as int);
    lemma_small_mod(1nat, m as nat);
}

/// Core modular inverse over unsigned words: for `m >= 1` and `a < m`,
/// the unique `v < m` with `a * v = 1 (mod m)` when `gcd(a, m) = 1`,
/// else nothing.
pub fn modinv_u64(a: u64, m: u64) -> (r: Option<u64>)
    requires
        m >= 1,
        a < m,
    ensures
        r is Some <==> spec_gcd(a as nat, m as nat) == 1,
        r is Some ==> ({
            let v = r->Some_0;
            &&& v < m
            &&& (a as int * v as int) % (m as int) == 1int % (m as int)
        }),
{
    let mut r0: u64 = m;
    let mut r1: u64 = a;
    let mut t0: u64 = 0;
    let mut t1: u64 = 1 % m;
    proof {
        lemma_small_mod(0nat, m as nat);
        lemma_mod_self_0(m as int);
        if m == 1 {
            lemma_small_mod(0nat, 1nat);
            assert(a as int * t1 as int == 0);
        } else {
            lemma_small_mod(1nat, m as nat);
            lemma_small_mod(a as nat, m as nat);
        }
        assert(spec_gcd(m as nat, a as nat) == spec_gcd(a as nat, m as nat)) by {
            if a != 0 {
                lemma_small_mod(a as nat, m as nat);
                assert(spec_gcd(a as nat, m as nat) == spec_gcd(m as nat, a as nat % m as nat));
            }
        }
    }
    while r1 != 0
        invariant
            1 <= m,
            r0 <= m,
            r1 < m,
            t0 < m,
            t1 < m,
            (a as int * t0 as int) % (m as int) == (r0 as int) % (m as int),
            (a as int * t1 as int) % (m as int) == (r1 as int) % (m as int),
            spec_gcd(r0 as nat, r1 as nat) == spec_gcd(a as nat, m as nat),
        decreases r1,
    {
        let q: u64 = r0 / r1;
        let rem: u64 = r0 % r1;
        let qt: u64 = arith::mul_mod_u64(q, t1, m);
        let new_t: u64 = if t0 >= qt {
            t0 - qt
        } else {
            t0 + (m - qt)
        };
        proof {
            let ai = a as int;
            let mi = m as int;
            let t0i = t0 as int;
            let t1i = t1 as int;
            let qi = q as int;
            lemma_fundamental_div_mod(r0 as int, r1 as int);
            assert(rem as int == r0 - qi * (r1 as int));
            // new_t = t0 - q * t1 (mod m)
            assert((new_t as int) % mi == (t0i - qt as int) % mi) by {
                if t0 >= qt {
                    lemma_small_mod(new_t as nat, m as nat);
                } else {
                    lemma_mod_add_multiples_vanish(t0i - qt as int, mi);
                    lemma_small_mod((t0i - qt + mi) as nat, m as nat);
                }
            }
            // a * new_t = a*t0 - q*(a*t1) = r0 - q*r1 = rem (mod m)
            lemma_mul_mod_noop_right(ai, new_t as int, mi);
            lemma_mul_mod_noop_right(ai, t0i - qt as int, mi);
            assert((ai * new_t as int) % mi == (ai * (t0i - qt as int)) % mi);
            lemma_mul_is_distributive_sub(ai, t0i, qt as int);
            lemma_sub_mod_noop(ai * t0i, ai * qt as int, mi);
            assert((ai * qt as int) % mi == (qi * (r1 as int)) % mi) by {
                lemma_mul_mod_noop_right(ai, qt as int, mi);
                lemma_mul_mod_noop_right(ai, qi * t1i, mi);
                lemma_mul_is_associative(ai, qi, t1i);
                lemma_mul_is_associative(qi, ai, t1i);
                lemma_mul_mod_noop_right(qi, ai * t1i, mi);
                lemma_mul_mod_noop_right(qi, r1 as int, mi);
            }
            lemma_sub_mod_noop(r0 as int, qi * (r1 as int), mi);
            assert((ai * new_t as int) % mi == (rem as int) % mi);
            // gcd is preserved by one Euclid step
            assert(spec_gcd(r1 as nat, rem as nat) == spec_gcd(r0 as nat, r1 as nat));
        }
        r0 = r1;
        r1 = rem;
        t0 = t1;
        t1 = new_t;
    }
    if r0 == 1 {
        Some(t0)
    } else {
        None
    }
}

/// The gcd of a pair, at least one of which is nonzero, is positive and
/// divides both.
pub proof fn lemma_gcd_divides(a: nat, b: nat)
    requires
        a > 0 || b > 0,
    ensures
        spec_gcd(a, b) > 0,
        a % spec_gcd(a, b) == 0,
        b % spec_gcd(a, b) == 0,
    decreases b,
{
    let g = spec_gcd(a, b);
    if b == 0 {
        lemma_mod_self_0(a as int);
        lemma_small_mod(0nat, a);
    } else {
        lemma_gcd_divides(b, a % b);
        lemma_fundamental_div_mod(a as int, b as int);
        let k = a as int / b as int;
        lemma_mul_mod_noop_right(k, b as int, g as int);
        lemma_small_mod(0nat, g);
        assert((k * (b as int)) % (g as int) == 0);
        lemma_add_mod_noop(k * (b as int), (a % b) as int, g as int);
        assert(a as int == k * (b as int) + (a % b) as int);
    }
}

/// When the gcd of `a` and `m` exceeds one, no residue multiplies with
/// `a` to one modulo `m`.
pub proof fn lemma_no_inverse_when_gcd_above_one(a: nat, m: nat)
    requires
        m >= 1,
        spec_gcd(a, m) != 1,
    ensures
        forall|v: int| #[trigger] ((a as int * v) % (m as int)) != 1int % (m as int),
{
    let g = spec_gcd(a, m);
    lemma_gcd_divides(a, m);
    assert(m >= 2) by {
        if m == 1 {
            lemma_fundamental_div_mod(a as int, 1int);
            assert(a % 1nat == 0);
            assert(spec_gcd(a, 1nat) == spec_gcd(1nat, 0nat));
            assert(spec_gcd(1nat, 0nat) == 1);
        }
    }
    assert(g >= 2);
    lemma_small_mod(1nat, m);
    assert forall|v: int| #[trigger] ((a as int * v) % (m as int)) != 1int % (m as int) by {
        if (a as int * v) % (m as int) == 1 {
            let ai = a as int;
            let mi = m as int;
            let gi = g as int;
            lemma_fundamental_div_mod(ai * v, mi);
            let q = (ai * v) / mi;
            assert(ai * v == mi * q + 1);
            assert(1int == ai * v - mi * q);
            lemma_mul_mod_noop_left(ai, v, gi);
            assert((ai * v) % gi == 0) by {
                assert(ai % gi == 0);
                lemma_mul_mod_noop_left(ai, v, gi);
                assert((ai % gi) * v == 0);
                lemma_small_mod(0nat, g);
                assert((0int * v) % gi == 0) by {
                    assert(0int * v == 0);
                }
            }
            assert((mi * q) % gi == 0) by {
                lemma_mul_mod_noop_left(mi, q, gi);
                assert(((m % g) as int) * q == 0);
                lemma_small_mod(0nat, g);
            }
            lemma_sub_mod_noop(ai * v, mi * q, gi);
            assert((ai * v - mi * q) % gi == 0);
            lemma_small_mod(1nat, g);
            assert(1int % gi == 1);
        }
    }
}

/// A residue has at most one inverse modulo `m`.
pub proof fn lemma_mod_inverse_unique(c: nat, m: nat, v1: nat, v2: nat)
    requires
        m >= 1,
        v1 < m,
        v2 < m,
        (c as int * v1 as int) % (m as int) == 1int % (m as int),
        (c as int * v2 as int) % (m as int) == 1int % (m as int),
    ensures
        v1 == v2,
{
    let ci = c as int;
    let mi = m as int;
    let a1 = v1 as int;
    let a2 = v2 as int;
    if m == 1 {
    } else {
        lemma_small_mod(1nat, m);
        lemma_small_mod(v1, m);
        lemma_small_mod(v2, m);
        assert((a1 * (ci * a2)) % mi == a1 % mi) by {
            lemma_mul_mod_noop_right(a1, ci * a2, mi);
            assert((a1 * ((ci * a2) % mi)) % mi == (a1 * (ci * a2)) % mi);
            assert(a1 * 1 == a1);
        }
        assert((a2 * (ci * a1)) % mi == a2 % mi) by {
            lemma_mul_mod_noop_right(a2, ci * a1, mi);
            assert(a2 * 1 == a2);
        }
        assert(a1 * (ci * a2) == a2 * (ci * a1)) by (nonlinear_arith);
    }
}

/// Modular inverse of `a` modulo `m`, by the extended Euclidean method:
/// nothing when the modulus is not positive or when `a` is not invertible,
/// else the representative of the inverse in `[0, m)`. A negative `a` is
/// reduced into the field first.
pub fn modinv(a: i64, m: i64) -> (r: Option<i64>)
    ensures
        m <= 0 ==> r is None,
        m > 0 ==> ((r is Some) <==> spec_gcd((a as int % m as int) as nat, m as nat) == 1),
        m > 0 && r is Some ==> ({
            let v = r->Some_0 as int;
            &&& 0 <= v < m
            &&& (a as int * v) % (m as int) == 1int % (m as int)
        }),
        m > 0 && r is None ==> forall|v: int| #[trigger] ((a as int * v) % (m as int)) != 1int % (m as int),
{
    if m <= 0 {
        return None;
    }
    let mu: u64 = m as u64;
    let abs_a: u64 = if a >= 0 {
        a as u64
    } else {
        (-(a as i128)) as u64
    };
    let rm: u64 = abs_a % mu;
    let am: u64 = if a >= 0 {
        rm
    } else if rm == 0 {
        0
    } else {
        mu - rm
    };
    proof {
        let ai = a as int;
        let mi = m as int;
        lemma_fundamental_div_mod(abs_a as int, mi);
        let k = abs_a as int / mi;
        assert(abs_a as int == mi * k + rm);
        if a >= 0 {
            assert(am == ai % mi);
        } else {
            assert(ai == -(abs_a as int));
            if rm == 0 {
                assert(ai == (-k) * mi) by (nonlinear_arith)
                    requires
                        ai == -(abs_a as int) && abs_a as int == mi * k + rm && rm == 0,
                ;
                lemma_mod_multiples_basic(-k, mi);
            } else {
                assert(ai == (-k - 1) * mi + (mi - rm)) by (nonlinear_arith)
                    requires
                        ai == -(abs_a as int) && abs_a as int == mi * k + rm,
                ;
                lemma_fundamental_div_mod_converse(ai, mi, -k - 1, mi - rm);
            }
        }
        assert(am as int == ai % mi);
    }
    let inv = modinv_u64(am, mu);
    match inv {
        Some(v) => {
            proof {
                lemma_mul_mod_noop_left(a as int, v as int, m as int);
                lemma_mul_mod_noop_left(am as int, v as int, m as int);
            }
            Some(v as i64)
        },
        None => {
            proof {
                lemma_no_inverse_when_gcd_above_one(am as nat, m as nat);
                assert forall|v: int| #[trigger] ((a as int * v) % (m as int)) != 1int % (m as int) by {
                    lemma_mul_mod_noop_left(a as int, v, m as int);
                    lemma_mul_mod_noop_left(am as int, v, m as int);
                }
            }
            None
        },
    }
}


/// The odd part of `d`: `d` with all factors of two divided out.
pub open spec fn strip_twos(d: nat) -> nat
    decreases d,
{
    if d >= 1 && d % 2 == 0 {
        strip_twos(d / 2)
    } else {
        d
    }
}

/// One Miller-Rabin witness round: starting from residue `t` with doubled
/// exponent `dt`, the witness passes if some squaring reaches `n - 1`
/// before `dt` reaches `n - 1`; doubling saturates at the word maximum.
pub open spec fn mr_round(t: nat, dt: nat, n: nat) -> bool
    decreases (if dt <= n { n - dt } else { 0 }),
{
    if dt >= n - 1 || dt < 1 || n < 3 || n > u64::MAX {
        false
    } else if t == n - 1 {
        true
    } else {
        mr_round((t * t) % n, if 2 * dt > u64::MAX { u64::MAX as nat } else { 2 * dt }, n)
    }
}

/// A single Miller-Rabin witness `a` passes for odd `n > 3`.
pub open spec fn mr_witness_passes(n: nat, a: nat) -> bool {
    let d = strip_twos((n - 1) as nat);
    let t0 = (pow(a as int, d) % (n as int)) as nat;
    t0 == 1 || mr_round(t0, d, n)
}

/// The fixed witness list that makes Miller-Rabin deterministic for all
/// 64-bit inputs.
pub open spec fn mr_witness(i: int) -> nat {
    if i == 0 {
        2
    } else if i == 1 {
        3
    } else if i == 2 {
        5
    } else if i == 3 {
        7
    } else if i == 4 {
        11
    } else if i == 5 {
        13
    } else if i == 6 {
        17
    } else if i == 7 {
        19
    } else if i == 8 {
        23
    } else if i == 9 {
        29
    } else if i == 10 {
        31
    } else {
        37
    }
}

/// The witnesses from index `i` on all pass for `n`, where a witness
/// equal to `n` passes the whole test outright.
pub open spec fn mr_witnesses_pass(n: nat, i: int) -> bool
    decreases 12 - i,
{
    if i >= 12 {
        true
    } else if n == mr_witness(i) {
        true
    } else if mr_witness_passes(n, mr_witness(i)) {
        mr_witnesses_pass(n, i + 1)
    } else {
        false
    }
}

/// The deterministic Miller-Rabin primality answer: small and even
/// candidates are settled at once, and odd candidates above 3 must pass
/// every witness.
pub open spec fn spec_is_prime(n: nat) -> bool {
    if n < 2 {
        false
    } else if n == 2 || n == 3 {
        true
    } else if n % 2 == 0 || n % 3 == 0 {
        false
    } else {
        mr_witnesses_pass(n, 0)
    }
}

fn mr_witness_at(i: usize) -> (r: u64)
    requires
        i < 12,
    ensures
        r == mr_witness(i as int),
{
    match i {
        0 => 2,
        1 => 3,
        2 => 5,
        3 => 7,
        4 => 11,
        5 => 13,
        6 => 17,
        7 => 19,
        8 => 23,
        9 => 29,
        10 => 31,
        _ => 37,
    }
}

/// Deterministic Miller-Rabin primality over the fixed witness set.
pub fn is_prime(n: u64) -> (r: bool)
    ensures
        r == spec_is_prime(n as nat),
{
    if n < 2 {
        return false;
    }
    if n == 2 || n == 3 {
        return true;
    }
    if n % 2 == 0 || n % 3 == 0 {
        return false;
    }
    let mut d: u64 = n - 1;
    while d % 2 == 0
        invariant
            1 <= d,
            strip_twos(d as nat) == strip_twos((n - 1) as nat),
        decreases d,
    {
        d = d / 2;
    }
    let mut i: usize = 0;
    while i < 12
        invariant
            n >= 5,
            n % 2 != 0,
            i <= 12,
            d == strip_twos((n - 1) as nat),
            1 <= d,
            mr_witnesses_pass(n as nat, 0) == mr_witnesses_pass(n as nat, i as int),
        decreases 12 - i,
    {
        let a: u64 = mr_witness_at(i);
        if n == a {
            proof {
                assert(mr_witnesses_pass(n as nat, i as int));
            }
            return true;
        }
        {
            let t0: u64 = modexp(a, d, n);
            if t0 != 1 {
                let mut t: u64 = t0;
                let mut dt: u64 = d;
                while dt < n - 1 && t != n - 1
                    invariant
                        n >= 5,
                        t < n,
                        1 <= dt,
                        mr_round(t as nat, dt as nat, n as nat) == mr_round(
                            t0 as nat,
                            d as nat,
                            n as nat,
                        ),
                    decreases (if dt <= n { (n - dt) as int } else { 0int }),
                {
                    let ghost t_pre = t as nat;
                    let ghost dt_pre = dt as nat;
                    t = arith::mul_mod_u64(t, t, n);
                    dt = if dt > u64::MAX / 2 {
                        u64::MAX
                    } else {
                        dt * 2
                    };
                    proof {
                        assert(dt as nat == (if 2 * dt_pre > u64::MAX {
                            u64::MAX as nat
                        } else {
                            2 * dt_pre
                        }));
                        assert(mr_round(t_pre, dt_pre, n as nat) == mr_round(
                            t as nat,
                            dt as nat,
                            n as nat,
                        ));
                    }
                }
                let passed: bool = t == n - 1 && dt < n - 1;
                proof {
                    assert(passed == mr_round(t as nat, dt as nat, n as nat));
                    assert(passed == mr_round(t0 as nat, d as nat, n as nat));
                }
                if !passed {
                    proof {
                        assert(!mr_witness_passes(n as nat, a as nat));
                        assert(!mr_witnesses_pass(n as nat, i as int));
                    }
                    return false;
                }
                proof {
                    assert(mr_witness_passes(n as nat, a as nat));
                }
            }
            proof {
                assert(mr_witness_passes(n as nat, a as nat));
                assert(mr_witnesses_pass(n as nat, i as int) == mr_witnesses_pass(
                    n as nat,
                    i as int + 1,
                ));
            }
        }
        i = i + 1;
    }
    true
}


/// The factorial of `n`.
pub open spec fn spec_fact(n: nat) -> nat
    decreases n,
{
    if n == 0 {
        1
    } else {
        n * spec_fact((n - 1) as nat)
    }
}

/// Every factorial is at least one.
proof fn lemma_fact_pos(n: nat)
    ensures
        spec_fact(n) >= 1,
    decreases n,
{
    if n > 0 {
        lemma_fact_pos((n - 1) as nat);
        assert(n * spec_fact((n - 1) as nat) >= 1 * spec_fact((n - 1) as nat))
            by (nonlinear_arith)
            requires
                n >= 1 && spec_fact((n - 1) as nat) >= 1,
        ;
    }
}

/// Factorial is monotone.
proof fn lemma_fact_monotone(i: nat, j: nat)
    requires
        i <= j,
    ensures
        spec_fact(i) <= spec_fact(j),
    decreases j,
{
    if i < j {
        lemma_fact_monotone(i, (j - 1) as nat);
        lemma_fact_pos((j - 1) as nat);
        assert(spec_fact((j - 1) as nat) <= j * spec_fact((j - 1) as nat))
            by (nonlinear_arith)
            requires
                j >= 1 && spec_fact((j - 1) as nat) >= 0,
        ;
    }
}

/// The largest factorial within 64-bit range.
proof fn lemma_fact_20()
    ensures
        spec_fact(20) == 2432902008176640000,
{
    assert(spec_fact(0) == 1);
    assert(spec_fact(1) == 1);
    assert(spec_fact(2) == 2);
    assert(spec_fact(3) == 6);
    assert(spec_fact(4) == 24);
    assert(spec_fact(5) == 120);
    assert(spec_fact(6) == 720);
    assert(spec_fact(7) == 5040);
    assert(spec_fact(8) == 40320);
    assert(spec_fact(9) == 362880);
    assert(spec_fact(10) == 3628800);
    assert(spec_fact(11) == 39916800);
    assert(spec_fact(12) == 479001600);
    assert(spec_fact(13) == 6227020800);
    assert(spec_fact(14) == 87178291200);
    assert(spec_fact(15) == 1307674368000);
    assert(spec_fact(16) == 20922789888000);
    assert(spec_fact(17) == 355687428096000);
    assert(spec_fact(18) == 6402373705728000);
    assert(spec_fact(19) == 121645100408832000);
    assert(spec_fact(20) == 2432902008176640000);
}

/// The exact factorial for `n <= 20`, nothing beyond: 21! is the first
/// value outside the 64-bit range.
pub fn factorial(n: u64) -> (r: Option<u64>)
    ensures
        n > 20 ==> r is None,
        n <= 20 ==> r == Some((spec_fact(n as nat) as u64)),
{
    if n > 20 {
        return None;
    }
    let mut result: u64 = 1;
    let mut i: u64 = 1;
    proof {
        assert(spec_fact(0nat) == 1);
        assert(spec_fact(1nat) == 1 * spec_fact(0nat));
    }
    while i < n
        invariant
            1 <= i,
            i <= (if n >= 1 { n } else { 1u64 }),
            n <= 20,
            result == spec_fact(i as nat),
        decreases n - i,
    {
        proof {
            lemma_fact_monotone((i + 1) as nat, 20nat);
            lemma_fact_20();
            assert(spec_fact((i + 1) as nat) == (i + 1) * spec_fact(i as nat));
            assert(result * (i + 1) == (i + 1) * spec_fact(i as nat)) by (nonlinear_arith)
                requires
                    result == spec_fact(i as nat),
            ;
            assert(result * (i + 1) <= 2432902008176640000);
        }
        result = result * (i + 1);
        i = i + 1;
    }
    proof {
        if n == 0 {
            assert(spec_fact(1nat) == 1 * spec_fact(0nat));
        }
    }
    Some(result)
}

/// One run of the multiplicative binomial iteration from index `i` with
/// accumulator `acc`: multiply by `n - i`, saturating, then divide by
/// `i + 1`.
pub open spec fn nck_iter(n: u64, k: u64, i: u64, acc: u64) -> u64
    decreases k - i,
{
    if i >= k {
        acc
    } else {
        let factor: u64 = if n >= i { (n - i) as u64 } else { 0u64 };
        nck_iter(n, k, (i + 1) as u64, (sat_mul_u64(acc, factor) / ((i + 1) as u64)) as u64)
    }
}

/// Binomial coefficient by the multiplicative formula with the
/// `k <= n - k` symmetry reduction; the running division is integer
/// division, an accepted precision trade.
pub fn n_choose_k(n: u64, k: u64) -> (r: u64)
    ensures
        k > n ==> r == 0,
        k <= n && (k == 0 || k == n) ==> r == 1,
        k <= n && 0 < k < n ==> r == nck_iter(n, if k > n / 2 { (n - k) as u64 } else { k }, 0, 1),
{
    if k > n {
        return 0;
    }
    if k == 0 || k == n {
        return 1;
    }
    let kk: u64 = if k > n / 2 {
        n - k
    } else {
        k
    };
    let mut res: u64 = 1;
    let mut i: u64 = 0;
    while i < kk
        invariant
            i <= kk,
            kk <= n,
            nck_iter(n, kk, i, res) == nck_iter(n, kk, 0, 1),
        decreases kk - i,
    {
        res = arith::mul_sat_u64(res, n - i) / (i + 1);
        i = i + 1;
    }
    res
}

/// The floor of the base-2 logarithm: nothing for zero, else the unique
/// `e` with `2^e <= n < 2^(e+1)`.
pub fn log2_floor(n: u64) -> (r: Option<u32>)
    ensures
        n == 0 ==> r is None,
        n >= 1 ==> ({
            let e = r->Some_0 as nat;
            &&& r is Some
            &&& pow2(e) <= n < pow2(e + 1)
            &&& e <= 63
            &&& r->Some_0 == spec_log2_floor(n)
        }),
{
    if n == 0 {
        return None;
    }
    let mut e: u32 = 0;
    let mut m: u64 = n;
    proof {
        vstd::arithmetic::power2::lemma2_to64();
    }
    while m >= 2
        invariant
            1 <= m,
            e <= 63,
            pow2(e as nat) * m <= n < pow2(e as nat) * (m + 1),
        decreases m,
    {
        proof {
            let p = pow2(e as nat) as int;
            let mi = m as int;
            vstd::arithmetic::power2::lemma_pow2_pos(e as nat);
            vstd::arithmetic::power2::lemma_pow2_adds(e as nat, 1);
            vstd::arithmetic::power2::lemma2_to64();
            vstd::arithmetic::power2::lemma2_to64_rest();
            lemma_fundamental_div_mod(mi, 2);
            assert((p * 2) * (mi / 2) <= p * mi) by (nonlinear_arith)
                requires
                    mi == 2 * (mi / 2) + mi % 2 && mi % 2 >= 0 && p >= 1,
            ;
            assert(p * (mi + 1) <= (p * 2) * (mi / 2 + 1)) by (nonlinear_arith)
                requires
                    mi == 2 * (mi / 2) + mi % 2 && mi % 2 < 2 && p >= 1,
            ;
            assert(e < 63) by {
                if e >= 63 {
                    assert(pow2(63) * m >= pow2(63) * 2) by (nonlinear_arith)
                        requires
                            m >= 2 && pow2(63) >= 1,
                    ;
                    assert(pow2(63) * 2 == pow2(64));
                }
            }
        }
        m = m / 2;
        e = e + 1;
    }
    proof {
        let p = pow2(e as nat) as int;
        vstd::arithmetic::power2::lemma_pow2_pos(e as nat);
        assert(p * 1 == p);
        assert(p * (m + 1) <= p * 2) by (nonlinear_arith)
            requires
                m + 1 <= 2 && p >= 0,
        ;
        vstd::arithmetic::power2::lemma_pow2_adds(e as nat, 1);
        vstd::arithmetic::power2::lemma2_to64();
        assert(pow2(e as nat) <= n < pow2((e + 1) as nat));
        assert(exists|w: u32| #[trigger] pow2(w as nat) <= n < pow2((w + 1) as nat)) by {
            assert(pow2(e as nat) <= n < pow2((e + 1) as nat));
        }
        lemma_log2_unique(n, e, spec_log2_floor(n));
    }
    Some(e)
}

/// Ten to the `c` dominates two to the `c`.
proof fn lemma_pow10_ge_pow2(c: nat)
    ensures
        pow(10, c) >= pow2(c),
        pow(10, c) >= 1,
    decreases c,
{
    vstd::arithmetic::power2::lemma_pow2(c);
    if c == 0 {
        vstd::arithmetic::power::lemma_pow0(10);
        vstd::arithmetic::power::lemma_pow0(2);
    } else {
        lemma_pow10_ge_pow2((c - 1) as nat);
        vstd::arithmetic::power2::lemma_pow2((c - 1) as nat);
        vstd::arithmetic::power::lemma_pow_adds(10, 1, (c - 1) as nat);
        vstd::arithmetic::power::lemma_pow_adds(2, 1, (c - 1) as nat);
        vstd::arithmetic::power::lemma_pow1(10);
        vstd::arithmetic::power::lemma_pow1(2);
        assert(10 * pow(10, (c - 1) as nat) >= 2 * pow(2, (c - 1) as nat)) by (nonlinear_arith)
            requires
                pow(10, (c - 1) as nat) >= pow(2, (c - 1) as nat) && pow(2, (c - 1) as nat) >= 0,
        ;
    }
}

/// The floor of the base-10 logarithm; zero maps to zero, else the unique
/// `c` with `10^c <= n < 10^(c+1)`.
pub fn log10_floor(n: u64) -> (r: u32)
    ensures
        n == 0 ==> r == 0,
        n >= 1 ==> pow(10, r as nat) <= n < pow(10, (r + 1) as nat) && r == spec_log10_floor(n),
{
    if n == 0 {
        return 0;
    }
    let mut c: u32 = 0;
    let mut m: u64 = n;
    proof {
        vstd::arithmetic::power::lemma_pow0(10);
    }
    while m >= 10
        invariant
            1 <= m,
            c <= 63,
            pow(10, c as nat) * m <= n < pow(10, c as nat) * (m + 1),
        decreases m,
    {
        proof {
            let p = pow(10, c as nat);
            lemma_pow10_ge_pow2(c as nat);
            vstd::arithmetic::power::lemma_pow_adds(10, c as nat, 1);
            vstd::arithmetic::power::lemma_pow1(10);
            let mi = m as int;
            lemma_fundamental_div_mod(mi, 10);
            assert((p * 10) * (mi / 10) <= p * mi) by (nonlinear_arith)
                requires
                    mi == 10 * (mi / 10) + mi % 10 && mi % 10 >= 0 && p >= 1,
            ;
            assert(p * (mi + 1) <= (p * 10) * (mi / 10 + 1)) by (nonlinear_arith)
                requires
                    mi == 10 * (mi / 10) + mi % 10 && mi % 10 < 10 && p >= 1,
            ;
            assert(c < 63) by {
                if c >= 63 {
                    lemma_pow10_ge_pow2(63);
                    vstd::arithmetic::power2::lemma2_to64_rest();
                    assert(pow(10, 63) * m > u64::MAX) by (nonlinear_arith)
                        requires
                            pow(10, 63) >= pow2(63) && pow2(63) == 0x8000000000000000 && m >= 10,
                    ;
                }
            }
        }
        m = m / 10;
        c = c + 1;
    }
    proof {
        let p = pow(10, c as nat);
        lemma_pow10_ge_pow2(c as nat);
        assert(p * 1 == p);
        assert(p * (m + 1) <= p * 10) by (nonlinear_arith)
            requires
                m + 1 <= 10 && p >= 0,
        ;
        vstd::arithmetic::power::lemma_pow_adds(10, c as nat, 1);
        vstd::arithmetic::power::lemma_pow1(10);
        assert(p <= p * m) by (nonlinear_arith)
            requires
                m >= 1 && p >= 0,
        ;
        assert(pow(10, c as nat) <= n < pow(10, (c + 1) as nat));
        assert(exists|w: u32| #[trigger] pow(10, w as nat) <= n < pow(10, (w + 1) as nat)) by {
            assert(pow(10, c as nat) <= n < pow(10, (c + 1) as nat));
        }
        lemma_log10_unique(n, c, spec_log10_floor(n));
    }
    c
}


/// `n` with all factors of `p` divided out.
pub open spec fn strip_factor(n: nat, p: nat) -> nat
    decreases n,
    via strip_factor_decreases
{
    if p >= 2 && n >= 1 && n % p == 0 {
        strip_factor(n / p, p)
    } else {
        n
    }
}

#[via_fn]
proof fn strip_factor_decreases(n: nat, p: nat) {
    if p >= 2 && n >= 1 && n % p == 0 {
        lemma_fundamental_div_mod(n as int, p as int);
        assert(n / p < n) by (nonlinear_arith)
            requires
                n as int == p * (n as int / p as int) + n as int % p as int && (n as int % p
                    as int) >= 0 && p >= 2 && n >= 1,
        ;
    }
}

/// Stripping a factor never grows the value.
proof fn lemma_strip_factor_le(n: nat, p: nat)
    ensures
        strip_factor(n, p) <= n,
        n >= 1 ==> strip_factor(n, p) >= 1,
    decreases n,
{
    if p >= 2 && n >= 1 && n % p == 0 {
        lemma_fundamental_div_mod(n as int, p as int);
        assert(n / p < n) by (nonlinear_arith)
            requires
                n as int == p * (n as int / p as int) + n as int % p as int && n % p == 0 && p >= 2
                    && n >= 1,
        ;
        assert(n / p >= 1) by (nonlinear_arith)
            requires
                n as int == p * (n as int / p as int) + n as int % p as int && n % p == 0 && p >= 2
                    && n >= 1,
        ;
        lemma_strip_factor_le(n / p, p);
    }
}

/// The trial-division totient accumulation: starting from candidate
/// divisor `p` with remaining cofactor `n` and accumulator `res`, strip
/// each divisor found and scale the accumulator by `1 - 1/p`, then charge
/// any remaining prime cofactor above one.
pub open spec fn phi_loop(n: nat, res: nat, p: nat) -> nat
    recommends
        p >= 2,
    decreases (if n + 2 >= p { n + 2 - p } else { 0 }),
    via phi_loop_decreases
{
    if p < 2 || p * p > n {
        if n > 1 {
            (res - res / n) as nat
        } else {
            res
        }
    } else if n % p == 0 {
        phi_loop(strip_factor(n / p, p), (res - res / p) as nat, p + 1)
    } else {
        phi_loop(n, res, p + 1)
    }
}

#[via_fn]
proof fn phi_loop_decreases(n: nat, res: nat, p: nat) {
    if !(p < 2 || p * p > n) {
        assert(p <= n) by (nonlinear_arith)
            requires
                p >= 2 && p * p <= n,
        ;
        if n % p == 0 {
            lemma_strip_factor_le(n / p, p);
            lemma_fundamental_div_mod(n as int, p as int);
            assert(n / p <= n) by (nonlinear_arith)
                requires
                    n as int == p * (n as int / p as int) + n as int % p as int && p >= 2 && (n
                        as int % p as int) >= 0,
            ;
        }
    }
}

/// Euler's totient by trial division up to the square root, per the
/// product formula over the distinct prime factors.
pub fn phi(n: u64) -> (r: u64)
    ensures
        n == 0 ==> r == 0,
        n >= 1 ==> r == phi_loop(n as nat, n as nat, 2),
{
    if n == 0 {
        return 0;
    }
    let mut nn: u64 = n;
    let mut result: u64 = n;
    let mut p: u64 = 2;
    while p <= nn / p
        invariant
            1 <= nn,
            2 <= p,
            phi_loop(nn as nat, result as nat, p as nat) == phi_loop(n as nat, n as nat, 2),
        decreases (if nn + 2 >= p { (nn + 2 - p) as int } else { 0int }),
    {
        let ghost n_before = nn as nat;
        let ghost res_before = result as nat;
        let ghost p_before = p as nat;
        proof {
            lemma_fundamental_div_mod(nn as int, p as int);
            assert(p * p <= nn) by (nonlinear_arith)
                requires
                    p <= nn / p && nn as int == p * (nn as int / p as int) + nn as int % p as int
                        && nn as int % p as int >= 0 && p >= 2,
            ;
            assert(p <= 0x1_0000_0000u64) by (nonlinear_arith)
                requires
                    p * p <= u64::MAX,
            ;
        }
        if nn % p == 0 {
            proof {
                lemma_fundamental_div_mod(nn as int, p as int);
                assert(nn / p >= 1 && nn / p <= nn) by (nonlinear_arith)
                    requires
                        nn as int == p * (nn as int / p as int) + nn as int % p as int && nn % p
                            == 0 && p >= 2 && nn >= 1,
                ;
            }
            nn = nn / p;
            while nn % p == 0
                invariant
                    1 <= nn,
                    2 <= p,
                    nn <= n_before,
                    strip_factor(nn as nat, p as nat) == strip_factor(n_before / (p as nat), p as nat),
                decreases nn,
            {
                proof {
                    lemma_fundamental_div_mod(nn as int, p as int);
                    assert(nn / p >= 1 && nn / p < nn) by (nonlinear_arith)
                        requires
                            nn as int == p * (nn as int / p as int) + nn as int % p as int && nn
                                % p == 0 && p >= 2 && nn >= 1,
                    ;
                }
                nn = nn / p;
            }
            result = result - result / p;
            p = p + 1;
            proof {
                assert(strip_factor(nn as nat, p_before) == nn as nat);
                assert(phi_loop(n_before, res_before, p_before) == phi_loop(
                    strip_factor(n_before / p_before, p_before),
                    (res_before - res_before / p_before) as nat,
                    p_before + 1,
                ));
                assert(result as nat == (res_before - res_before / p_before) as nat);
            }
        } else {
            p = p + 1;
            proof {
                assert(phi_loop(n_before, res_before, p_before) == phi_loop(
                    n_before,
                    res_before,
                    p_before + 1,
                ));
            }
        }
    }
    proof {
        lemma_fundamental_div_mod(nn as int, p as int);
        assert(p * p > nn) by (nonlinear_arith)
            requires
                p > nn / p && nn as int == p * (nn as int / p as int) + nn as int % p as int && (
                nn as int % p as int) < p as int && p >= 2,
        ;
    }
    if nn > 1 {
        result = result - result / nn;
    }
    result
}


/// The modular inverse of `c` modulo `m`, as a value: meaningful whenever
/// some inverse exists, in which case it is the unique one below `m`.
pub open spec fn spec_inv_mod(c: nat, m: nat) -> nat {
    choose|v: nat| v < m && #[trigger] ((c as int * v as int) % (m as int)) == 1int % (m as int)
}

/// Any witness of invertibility is the canonical inverse.
pub proof fn lemma_inv_matches_spec(c: nat, m: nat, v: nat)
    requires
        m >= 1,
        v < m,
        (c as int * v as int) % (m as int) == 1int % (m as int),
    ensures
        spec_inv_mod(c, m) == v,
{
    assert(exists|w: nat| w < m && #[trigger] ((c as int * w as int) % (m as int)) == 1int % (m
        as int)) by {
        assert(v < m && (c as int * v as int) % (m as int) == 1int % (m as int));
    }
    let u = spec_inv_mod(c, m);
    assert(u < m && (c as int * u as int) % (m as int) == 1int % (m as int)) by {
        assert(u == choose|w: nat|
            w < m && #[trigger] ((c as int * w as int) % (m as int)) == 1int % (m as int));
    }
    lemma_mod_inverse_unique(c, m, u, v);
}

/// The modular inverse over the signed wire domain, as a value: nothing
/// for a non-positive modulus or a non-invertible argument.
pub open spec fn spec_modinv(a: int, m: int) -> Option<int> {
    if m <= 0 {
        None
    } else if spec_gcd((a % m) as nat, m as nat) == 1 {
        Some(spec_inv_mod((a % m) as nat, m as nat) as int)
    } else {
        None
    }
}

/// The floor base-2 logarithm, as a value.
pub open spec fn spec_log2_floor(n: u64) -> u32 {
    choose|e: u32| #[trigger] pow2(e as nat) <= n < pow2((e + 1) as nat)
}

/// The floor base-10 logarithm, as a value.
pub open spec fn spec_log10_floor(n: u64) -> u32 {
    choose|c: u32| #[trigger] pow(10, c as nat) <= n < pow(10, (c + 1) as nat)
}

/// Two exponents bracketing the same value in a base-2 ladder coincide.
pub proof fn lemma_log2_unique(n: u64, e1: u32, e2: u32)
    requires
        pow2(e1 as nat) <= n < pow2((e1 + 1) as nat),
        pow2(e2 as nat) <= n < pow2((e2 + 1) as nat),
    ensures
        e1 == e2,
{
    if e1 < e2 {
        vstd::arithmetic::power2::lemma_pow2_adds((e1 + 1) as nat, (e2 - e1 - 1) as nat);
        vstd::arithmetic::power2::lemma_pow2_pos((e2 - e1 - 1) as nat);
        assert(pow2((e1 + 1) as nat) <= pow2(e2 as nat)) by (nonlinear_arith)
            requires
                pow2(e2 as nat) == pow2((e1 + 1) as nat) * pow2((e2 - e1 - 1) as nat) && pow2((e2
                    - e1 - 1) as nat) >= 1 && pow2((e1 + 1) as nat) >= 0,
        ;
    } else if e2 < e1 {
        vstd::arithmetic::power2::lemma_pow2_adds((e2 + 1) as nat, (e1 - e2 - 1) as nat);
        vstd::arithmetic::power2::lemma_pow2_pos((e1 - e2 - 1) as nat);
        assert(pow2((e2 + 1) as nat) <= pow2(e1 as nat)) by (nonlinear_arith)
            requires
                pow2(e1 as nat) == pow2((e2 + 1) as nat) * pow2((e1 - e2 - 1) as nat) && pow2((e1
                    - e2 - 1) as nat) >= 1 && pow2((e2 + 1) as nat) >= 0,
        ;
    }
}

/// Two exponents bracketing the same value in a base-10 ladder coincide.
pub proof fn lemma_log10_unique(n: u64, c1: u32, c2: u32)
    requires
        pow(10, c1 as nat) <= n < pow(10, (c1 + 1) as nat),
        pow(10, c2 as nat) <= n < pow(10, (c2 + 1) as nat),
    ensures
        c1 == c2,
{
    if c1 < c2 {
        vstd::arithmetic::power::lemma_pow_adds(10, (c1 + 1) as nat, (c2 - c1 - 1) as nat);
        lemma_pow10_ge_pow2((c2 - c1 - 1) as nat);
        assert(pow(10, (c1 + 1) as nat) <= pow(10, c2 as nat)) by (nonlinear_arith)
            requires
                pow(10, c2 as nat) == pow(10, (c1 + 1) as nat) * pow(10, (c2 - c1 - 1) as nat)
                    && pow(10, (c2 - c1 - 1) as nat) >= 1 && pow(10, (c1 + 1) as nat) >= 0,
        ;
    } else if c2 < c1 {
        vstd::arithmetic::power::lemma_pow_adds(10, (c2 + 1) as nat, (c1 - c2 - 1) as nat);
        lemma_pow10_ge_pow2((c1 - c2 - 1) as nat);
        assert(pow(10, (c2 + 1) as nat) <= pow(10, c1 as nat)) by (nonlinear_arith)
            requires
                pow(10, c1 as nat) == pow(10, (c2 + 1) as nat) * pow(10, (c1 - c2 - 1) as nat)
                    && pow(10, (c1 - c2 - 1) as nat) >= 1 && pow(10, (c2 + 1) as nat) >= 0,
        ;
    }
}

} // verus!
