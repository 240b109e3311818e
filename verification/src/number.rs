//! Numbers beyond the integers: exact fractions and inexact decimals, with
//! the order of all of them by value.
//!
//! Every number of the language is `n * 10^e / d` for integers `n`, `e` and
//! `d > 0` ([`Scaled`]). Numbers of different kinds are ordered by that
//! value, exactly.

use vstd::arithmetic::div_mod::{lemma_fundamental_div_mod, lemma_mod_bound};
use vstd::prelude::*;

verus! {

/// An exact fraction `n/d`. A fraction made by this library has `d > 1` and
/// is in lowest terms.
#[derive(Clone, Copy, Debug, PartialEq, Eq, Structural)]
pub struct Fraction {
    pub n: i64,
    pub d: i64,
}

/// An inexact number, held as the decimal `m * 10^e`.
///
/// The library does no binary floating point: a literal such as `2.5` is
/// kept as the significand `25` with exponent `-1`.
#[derive(Clone, Copy, Debug, PartialEq, Eq, Structural)]
pub struct Decimal {
    pub m: i64,
    pub e: i64,
}

/// The number `n * 10^e / d`, where `d > 0`.
#[derive(Clone, Copy, Debug, PartialEq, Eq, Structural)]
pub struct Scaled {
    pub n: i64,
    pub e: i64,
    pub d: i64,
}

/// Ten to the power `k`.
pub open spec fn pow10(k: nat) -> nat
    decreases k,
{
    if k == 0 {
        1
    } else {
        10 * pow10((k - 1) as nat)
    }
}

/// -1, 0 or 1 as `x` is negative, zero or positive.
pub open spec fn sign(x: int) -> int {
    if x < 0 {
        -1
    } else if x == 0 {
        0
    } else {
        1
    }
}

/// The order of two numbers by value: the sign of `x - y`, taken after both
/// are multiplied by the two denominators and by the power of ten that makes
/// both exponents non-negative.
pub open spec fn scaled_order(x: Scaled, y: Scaled) -> int {
    if x.e >= y.e {
        sign(x.n * y.d * pow10((x.e - y.e) as nat) - y.n * x.d)
    } else {
        sign(x.n * y.d - y.n * x.d * pow10((y.e - x.e) as nat))
    }
}

pub proof fn lemma_pow10_positive(k: nat)
    ensures
        pow10(k) > 0,
    decreases k,
{
    if k > 0 {
        lemma_pow10_positive((k - 1) as nat);
    }
}

pub proof fn lemma_pow10_monotonic(a: nat, b: nat)
    requires
        a <= b,
    ensures
        pow10(a) <= pow10(b),
    decreases b,
{
    if a < b {
        lemma_pow10_monotonic(a, (b - 1) as nat);
        lemma_pow10_positive((b - 1) as nat);
    }
}

/// Ten to the 19 and to the 38, written out.
pub proof fn lemma_pow10_values()
    ensures
        pow10(19) == 10000000000000000000,
        pow10(38) == 100000000000000000000000000000000000000,
{
    reveal_with_fuel(pow10, 20);
    assert(pow10(19) == 10000000000000000000);
    assert(pow10(38) == pow10(19) * pow10(19)) by {
        lemma_pow10_sum(19, 19);
    }
    assert(10000000000000000000 * 10000000000000000000
        == 100000000000000000000000000000000000000int) by (nonlinear_arith);
}

pub proof fn lemma_pow10_sum(a: nat, b: nat)
    ensures
        pow10(a + b) == pow10(a) * pow10(b),
    decreases a,
{
    if a == 0 {
        assert(pow10(0 + b) == 1 * pow10(b));
    } else {
        lemma_pow10_sum((a - 1) as nat, b);
        assert(pow10(a + b) == 10 * pow10((a - 1 + b) as nat));
        assert(10 * (pow10((a - 1) as nat) * pow10(b)) == (10 * pow10((a - 1) as nat)) * pow10(b))
            by (nonlinear_arith);
    }
}

fn sign_of(x: i128) -> (r: i8)
    ensures
        r == sign(x as int),
{
    if x < 0 {
        -1
    } else if x == 0 {
        0
    } else {
        1
    }
}

/// Ten to the power `k`, for a `k` whose power fits.
fn pow10_of(k: u32) -> (r: i128)
    requires
        k <= 37,
    ensures
        r == pow10(k as nat),
        0 < r < 100000000000000000000000000000000000000,
{
    let mut r: i128 = 1;
    let mut i: u32 = 0;
    proof {
        lemma_pow10_values();
    }
    while i < k
        invariant
            i <= k <= 37,
            r == pow10(i as nat),
            r > 0,
            pow10(38) == 100000000000000000000000000000000000000,
        decreases k - i,
    {
        proof {
            lemma_pow10_monotonic((i + 1) as nat, 37);
            lemma_pow10_monotonic(37, 38);
            assert(pow10(38) == 10 * pow10(37));
        }
        r = r * 10;
        i += 1;
    }
    proof {
        lemma_pow10_monotonic(k as nat, 37);
        assert(pow10(38) == 10 * pow10(37));
    }
    r
}

/// The sign of `p - a * t`, found without forming the product.
fn offset_sign(p: i128, a: i128, t: i128) -> (r: i8)
    requires
        t > 0,
        p > i128::MIN,
    ensures
        r == sign(p - a * t),
{
    // q and m with p == q * t + m and 0 <= m < t
    let q: i128;
    let m: i128;
    if p >= 0 {
        q = p / t;
        m = p % t;
        proof {
            lemma_fundamental_div_mod(p as int, t as int);
            lemma_mod_bound(p as int, t as int);
            assert(t * (p / t) == (p / t) * t) by (nonlinear_arith);
        }
    } else {
        let np: i128 = -p;
        let nq: i128 = np / t;
        let nm: i128 = np % t;
        proof {
            lemma_fundamental_div_mod(np as int, t as int);
            lemma_mod_bound(np as int, t as int);
            assert(t * (np / t) == (np / t) * t) by (nonlinear_arith);
            assert(0 <= nq <= np) by {
                vstd::arithmetic::div_mod::lemma_div_pos_is_pos(np as int, t as int);
                vstd::arithmetic::div_mod::lemma_div_nonincreasing(np as int, t as int);
            }
        }
        if nm == 0 {
            q = -nq;
            m = 0;
            assert(p == q * t + m) by (nonlinear_arith)
                requires
                    -p == nq * t,
                    q == -nq,
                    m == 0,
            ;
        } else {
            q = -nq - 1;
            m = t - nm;
            assert(p == q * t + m) by (nonlinear_arith)
                requires
                    -p == nq * t + nm,
                    q == -nq - 1,
                    m == t - nm,
            ;
        }
    }
    assert(p == q * t + m && 0 <= m < t);
    if q > a {
        assert(p - a * t > 0) by (nonlinear_arith)
            requires
                p == q * t + m,
                0 <= m,
                q > a,
                t > 0,
        ;
        1
    } else if q < a {
        assert(p - a * t < 0) by (nonlinear_arith)
            requires
                p == q * t + m,
                m < t,
                q < a,
                t > 0,
        ;
        -1
    } else {
        assert(p - a * t == m) by (nonlinear_arith)
            requires
                p == q * t + m,
                q == a,
        ;
        if m > 0 {
            1
        } else {
            0
        }
    }
}

/// The order of two numbers by value: -1, 0 or 1 as `x` is less than, equal
/// to or greater than `y`.
pub fn compare_scaled(x: Scaled, y: Scaled) -> (r: i8)
    requires
        x.d > 0,
        y.d > 0,
    ensures
        r == scaled_order(x, y),
{
    assert(-0x4000_0000_0000_0000_0000_0000_0000_0000 < x.n * y.d
        < 0x4000_0000_0000_0000_0000_0000_0000_0000) by (nonlinear_arith)
        requires
            -0x8000_0000_0000_0000 <= x.n < 0x8000_0000_0000_0000,
            0 < y.d < 0x8000_0000_0000_0000,
    ;
    assert(-0x4000_0000_0000_0000_0000_0000_0000_0000 < y.n * x.d
        < 0x4000_0000_0000_0000_0000_0000_0000_0000) by (nonlinear_arith)
        requires
            -0x8000_0000_0000_0000 <= y.n < 0x8000_0000_0000_0000,
            0 < x.d < 0x8000_0000_0000_0000,
    ;
    let a: i128 = (x.n as i128) * (y.d as i128);
    let b: i128 = (y.n as i128) * (x.d as i128);
    let gap: i128 = (x.e as i128) - (y.e as i128);
    proof {
        lemma_pow10_values();
    }
    if gap == 0 {
        assert(pow10(0) == 1);
        assert(a * 1 == a) by (nonlinear_arith);
        sign_of(a - b)
    } else if gap > 0 {
        // the sign of a * 10^gap - b
        if a == 0 {
            assert(a * pow10(gap as nat) == 0) by (nonlinear_arith)
                requires
                    a == 0,
            ;
            sign_of(-b)
        } else if gap >= 38 {
            proof {
                lemma_pow10_monotonic(38, gap as nat);
                lemma_big_factor(a as int, pow10(gap as nat) as int, b as int);
            }
            sign_of(a)
        } else {
            let t = pow10_of(gap as u32);
            let s = offset_sign(b, a, t);
            -s
        }
    } else {
        // the sign of a - b * 10^(-gap)
        if b == 0 {
            assert(b * pow10((-gap) as nat) == 0) by (nonlinear_arith)
                requires
                    b == 0,
            ;
            sign_of(a)
        } else if gap <= -38 {
            proof {
                lemma_pow10_monotonic(38, (-gap) as nat);
                lemma_big_factor(b as int, pow10((-gap) as nat) as int, a as int);
            }
            -sign_of(b)
        } else {
            let t = pow10_of((-gap) as u32);
            offset_sign(a, b, t)
        }
    }
}

/// A product with a factor of at least ten to the 38 outweighs any product
/// of two machine integers.
proof fn lemma_big_factor(a: int, t: int, b: int)
    requires
        a != 0,
        t >= 100000000000000000000000000000000000000,
        -0x4000_0000_0000_0000_0000_0000_0000_0000 <= b <= 0x4000_0000_0000_0000_0000_0000_0000_0000,
    ensures
        sign(a * t - b) == sign(a),
        sign(b - a * t) == -sign(a),
{
    if a > 0 {
        assert(a * t >= t) by (nonlinear_arith)
            requires
                a >= 1,
                t >= 0,
        ;
    } else {
        assert(a * t <= -t) by (nonlinear_arith)
            requires
                a <= -1,
                t >= 0,
        ;
    }
}

// ---------------------------------------------------------------------
// Exact arithmetic
// ---------------------------------------------------------------------

/// An exact number: an integer, or a fraction that is none.
#[derive(Clone, Copy, Debug, PartialEq, Eq, Structural)]
pub enum Exact {
    Integer(i64),
    Ratio(Fraction),
}

/// Greatest common divisor of two natural numbers, by Euclid's rule.
pub open spec fn gcd(a: nat, b: nat) -> nat
    decreases b,
{
    if b == 0 {
        a
    } else {
        gcd(b, a % b)
    }
}

pub open spec fn magnitude(x: int) -> nat {
    if x < 0 {
        (-x) as nat
    } else {
        x as nat
    }
}

pub open spec fn fits_i64(x: int) -> bool {
    -0x8000_0000_0000_0000 <= x < 0x8000_0000_0000_0000
}

/// The number `n/d`, for `d > 0`, in lowest terms: an integer where the
/// denominator comes out as one, else a fraction. There is none where a
/// part does not fit the machine integer.
pub open spec fn reduced(n: int, d: int) -> Option<Exact> {
    let g = gcd(magnitude(n), d as nat);
    let rn = sign(n) * (magnitude(n) / g);
    let rd = d / (g as int);
    if !fits_i64(rn) || !fits_i64(rd) {
        None
    } else if rd == 1 {
        Some(Exact::Integer(rn as i64))
    } else {
        Some(Exact::Ratio(Fraction { n: rn as i64, d: rd as i64 }))
    }
}

impl Exact {
    /// The numerator.
    pub open spec fn num(self) -> int {
        match self {
            Exact::Integer(i) => i as int,
            Exact::Ratio(f) => f.n as int,
        }
    }

    /// The denominator.
    pub open spec fn den(self) -> int {
        match self {
            Exact::Integer(_) => 1,
            Exact::Ratio(f) => f.d as int,
        }
    }

    /// The same number as a scaled one.
    pub open spec fn scaled(self) -> Scaled {
        match self {
            Exact::Integer(i) => Scaled { n: i, e: 0, d: 1 },
            Exact::Ratio(f) => Scaled { n: f.n, e: 0, d: f.d },
        }
    }
}

/// `x + y`, if it fits.
pub open spec fn sum_of(x: Exact, y: Exact) -> Option<Exact> {
    reduced(x.num() * y.den() + y.num() * x.den(), x.den() * y.den())
}

/// `x - y`, if it fits.
pub open spec fn difference_of(x: Exact, y: Exact) -> Option<Exact> {
    reduced(x.num() * y.den() - y.num() * x.den(), x.den() * y.den())
}

/// `x * y`, if it fits.
pub open spec fn product_of(x: Exact, y: Exact) -> Option<Exact> {
    reduced(x.num() * y.num(), x.den() * y.den())
}

/// `x / y` for `y` other than zero, if it fits.
pub open spec fn quotient_of(x: Exact, y: Exact) -> Option<Exact> {
    if y.num() > 0 {
        reduced(x.num() * y.den(), x.den() * y.num())
    } else {
        reduced(-(x.num() * y.den()), -(x.den() * y.num()))
    }
}

proof fn lemma_gcd_positive(a: nat, b: nat)
    requires
        a > 0 || b > 0,
    ensures
        gcd(a, b) > 0,
    decreases b,
{
    if b > 0 {
        lemma_gcd_positive(b, a % b);
    }
}

/// The greatest common divisor divides both, and so is no greater than
/// either one that is positive.
proof fn lemma_gcd_divides(a: nat, b: nat)
    ensures
        gcd(a, b) > 0 ==> a % gcd(a, b) == 0 && b % gcd(a, b) == 0,
    decreases b,
{
    if b > 0 {
        let g = gcd(a, b);
        lemma_gcd_positive(a, b);
        lemma_gcd_divides(b, a % b);
        // a == b * (a / b) + a % b, and g divides b and a % b
        lemma_fundamental_div_mod(a as int, b as int);
        let k1 = b / g;
        let k2 = (a % b) / g;
        lemma_fundamental_div_mod(b as int, g as int);
        lemma_fundamental_div_mod((a % b) as int, g as int);
        assert(a == g * (k1 * (a / b) + k2)) by (nonlinear_arith)
            requires
                a == b * (a / b) + a % b,
                b == g * k1,
                a % b == g * k2,
        ;
        vstd::arithmetic::div_mod::lemma_mod_multiples_basic((k1 * (a / b) + k2) as int, g as int);
        assert(g * (k1 * (a / b) + k2) == (k1 * (a / b) + k2) * g) by (nonlinear_arith);
    } else if a > 0 {
        vstd::arithmetic::div_mod::lemma_mod_self_0(a as int);
    }
}

/// A number that divides two numbers divides their greatest common
/// divisor. The quotients are given, and the quotient is returned.
pub proof fn lemma_common_divisor(a: nat, b: nat, c: nat, ka: nat, kb: nat) -> (kg: nat)
    requires
        c > 0,
        a == c * ka,
        b == c * kb,
    ensures
        gcd(a, b) == c * kg,
    decreases b,
{
    if b == 0 {
        ka
    } else {
        let q = a / b;
        let r = a % b;
        lemma_fundamental_div_mod(a as int, b as int);
        lemma_mod_bound(a as int, b as int);
        let kr = ka - kb * q;
        assert(r == c * kr) by (nonlinear_arith)
            requires
                a == b * q + r,
                a == c * ka,
                b == c * kb,
                kr == ka - kb * q,
        ;
        assert(kr >= 0) by (nonlinear_arith)
            requires
                r == c * kr,
                r >= 0,
                c > 0,
        ;
        lemma_common_divisor(b, r, c, kb, kr as nat)
    }
}

/// What is left of two numbers, not both zero, after division by their
/// greatest common divisor has no common divisor but one.
pub proof fn lemma_gcd_of_quotients(a: nat, b: nat)
    requires
        b > 0,
    ensures
        gcd(a, b) > 0,
        a % gcd(a, b) == 0,
        b % gcd(a, b) == 0,
        b / gcd(a, b) >= 1,
        gcd(a / gcd(a, b), b / gcd(a, b)) == 1,
{
    let g = gcd(a, b);
    lemma_gcd_positive(a, b);
    lemma_gcd_divides(a, b);
    let a1 = a / g;
    let b1 = b / g;
    lemma_fundamental_div_mod(a as int, g as int);
    lemma_fundamental_div_mod(b as int, g as int);
    assert(b1 >= 1) by (nonlinear_arith)
        requires
            b == g * b1,
            b > 0,
            g > 0,
            b1 >= 0,
    ;
    let h = gcd(a1, b1);
    lemma_gcd_positive(a1, b1);
    lemma_gcd_divides(a1, b1);
    let a2 = a1 / h;
    let b2 = b1 / h;
    lemma_fundamental_div_mod(a1 as int, h as int);
    lemma_fundamental_div_mod(b1 as int, h as int);
    assert(a == (g * h) * a2) by (nonlinear_arith)
        requires
            a == g * a1,
            a1 == h * a2,
    ;
    assert(b == (g * h) * b2) by (nonlinear_arith)
        requires
            b == g * b1,
            b1 == h * b2,
    ;
    assert(g * h > 0) by (nonlinear_arith)
        requires
            g > 0,
            h > 0,
    ;
    let kg = lemma_common_divisor(a, b, g * h, a2, b2);
    assert(h == 1) by (nonlinear_arith)
        requires
            g == (g * h) * kg,
            g > 0,
            h > 0,
            kg >= 0,
    ;
}

/// An exact number made by `reduced` has the value `n/d`, a positive
/// denominator, and no common divisor of its two parts but one; and as a
/// fraction, a denominator other than one.
pub proof fn lemma_reduced(n: int, d: int)
    requires
        d > 0,
        reduced(n, d) is Some,
    ensures
        ({
            let x = reduced(n, d)->0;
            &&& x.num() * d == n * x.den()
            &&& x.den() > 0
            &&& gcd(magnitude(x.num()), x.den() as nat) == 1
            &&& x matches Exact::Ratio(f) ==> f.d > 1
        }),
{
    let m = magnitude(n);
    let g = gcd(m, d as nat);
    lemma_gcd_of_quotients(m, d as nat);
    let qn = m / g;
    let qd = d / (g as int);
    lemma_fundamental_div_mod(m as int, g as int);
    lemma_fundamental_div_mod(d, g as int);
    let rn = sign(n) * (qn as int);
    assert(magnitude(rn) == qn) by (nonlinear_arith)
        requires
            rn == sign(n) * (qn as int),
            qn >= 0,
            n == 0 ==> qn == 0,
    {
    }
    assert(n == sign(n) * (m as int)) by (nonlinear_arith)
        requires
            m == magnitude(n),
    {
    }
    assert(rn * d == n * qd) by (nonlinear_arith)
        requires
            rn == sign(n) * (qn as int),
            n == sign(n) * (m as int),
            m == g * qn,
            d == g * qd,
    ;
    assert(gcd(qn, 1) == 1) by {
        assert(gcd(1, qn % 1) == 1);
    }
}

fn gcd_of(a: u128, b: u128) -> (g: u128)
    ensures
        g == gcd(a as nat, b as nat),
{
    let mut x = a;
    let mut y = b;
    while y != 0
        invariant
            gcd(x as nat, y as nat) == gcd(a as nat, b as nat),
        decreases y,
    {
        let r = x % y;
        x = y;
        y = r;
    }
    x
}

/// The number `n/d` in lowest terms, unless a part does not fit.
pub fn reduce(n: i128, d: i128) -> (r: Option<Exact>)
    requires
        d > 0,
        n > i128::MIN,
    ensures
        r == reduced(n as int, d as int),
        r matches Some(x) ==> x.wf(),
{
    let mag: u128 = if n < 0 {
        (-n) as u128
    } else {
        n as u128
    };
    let g = gcd_of(mag, d as u128);
    proof {
        lemma_gcd_positive(mag as nat, d as nat);
        lemma_gcd_divides(mag as nat, d as nat);
        vstd::arithmetic::div_mod::lemma_div_nonincreasing(mag as int, g as int);
        vstd::arithmetic::div_mod::lemma_div_nonincreasing(d as int, g as int);
        vstd::arithmetic::div_mod::lemma_div_pos_is_pos(mag as int, g as int);
        vstd::arithmetic::div_mod::lemma_div_pos_is_pos(d as int, g as int);
    }
    let qn: u128 = mag / g;
    let qd: u128 = (d as u128) / g;
    assert(qd >= 1) by {
        lemma_fundamental_div_mod(d as int, g as int);
        assert(qd > 0) by (nonlinear_arith)
            requires
                d == g * qd,
                d > 0,
                g > 0,
                qd >= 0,
        ;
    }
    let ghost rn = sign(n as int) * (mag as int / g as int);
    assert(rn == (if n < 0 { -(qn as int) } else { qn as int })) by (nonlinear_arith)
        requires
            rn == sign(n as int) * (mag as int / g as int),
            qn == mag as int / g as int,
            n == 0 ==> qn == 0,
    {
    }
    if qd > 0x7fff_ffff_ffff_ffff {
        return None;
    }
    let rn: i64;
    if n < 0 {
        if qn > 0x8000_0000_0000_0000 {
            return None;
        }
        rn = (-(qn as i128)) as i64;
    } else {
        if qn > 0x7fff_ffff_ffff_ffff {
            return None;
        }
        rn = qn as i64;
    }
    if qd == 1 {
        Some(Exact::Integer(rn))
    } else {
        Some(Exact::Ratio(Fraction { n: rn, d: qd as i64 }))
    }
}

impl Exact {
    /// Whether the denominator is positive.
    pub open spec fn wf(self) -> bool {
        self.den() > 0
    }

    fn parts(self) -> (r: (i128, i128))
        ensures
            r.0 == self.num(),
            r.1 == self.den(),
    {
        match self {
            Exact::Integer(i) => (i as i128, 1),
            Exact::Ratio(f) => (f.n as i128, f.d as i128),
        }
    }
}

proof fn lemma_product_bounds(a: int, b: int)
    requires
        fits_i64(a),
        fits_i64(b),
    ensures
        -0x4000_0000_0000_0000_0000_0000_0000_0000 <= a * b
            <= 0x4000_0000_0000_0000_0000_0000_0000_0000,
        b > 0 ==> -0x4000_0000_0000_0000_0000_0000_0000_0000 < a * b
            < 0x4000_0000_0000_0000_0000_0000_0000_0000,
        a > 0 && b > 0 ==> a * b > 0,
        a < 0 && b > 0 ==> a * b < 0,
        a == 0 ==> a * b == 0,
{
    assert(-0x4000_0000_0000_0000_0000_0000_0000_0000 <= a * b
        <= 0x4000_0000_0000_0000_0000_0000_0000_0000) by (nonlinear_arith)
        requires
            -0x8000_0000_0000_0000 <= a < 0x8000_0000_0000_0000,
            -0x8000_0000_0000_0000 <= b < 0x8000_0000_0000_0000,
    ;
    if b > 0 {
        assert(-0x4000_0000_0000_0000_0000_0000_0000_0000 < a * b
            < 0x4000_0000_0000_0000_0000_0000_0000_0000) by (nonlinear_arith)
            requires
                -0x8000_0000_0000_0000 <= a < 0x8000_0000_0000_0000,
                0 < b < 0x8000_0000_0000_0000,
        ;
        assert(a > 0 ==> a * b > 0) by (nonlinear_arith)
            requires
                b > 0,
        ;
        assert(a < 0 ==> a * b < 0) by (nonlinear_arith)
            requires
                b > 0,
        ;
    }
    assert(a == 0 ==> a * b == 0) by (nonlinear_arith);
}

/// `x + y`, unless it does not fit.
pub fn plus(x: Exact, y: Exact) -> (r: Option<Exact>)
    requires
        x.wf(),
        y.wf(),
    ensures
        r == sum_of(x, y),
        r matches Some(z) ==> z.wf(),
{
    let (xn, xd) = x.parts();
    let (yn, yd) = y.parts();
    proof {
        lemma_product_bounds(xn as int, yd as int);
        lemma_product_bounds(yn as int, xd as int);
        lemma_product_bounds(xd as int, yd as int);
    }
    reduce(xn * yd + yn * xd, xd * yd)
}

/// `x - y`, unless it does not fit.
pub fn minus(x: Exact, y: Exact) -> (r: Option<Exact>)
    requires
        x.wf(),
        y.wf(),
    ensures
        r == difference_of(x, y),
        r matches Some(z) ==> z.wf(),
{
    let (xn, xd) = x.parts();
    let (yn, yd) = y.parts();
    proof {
        lemma_product_bounds(xn as int, yd as int);
        lemma_product_bounds(yn as int, xd as int);
        lemma_product_bounds(xd as int, yd as int);
    }
    reduce(xn * yd - yn * xd, xd * yd)
}

/// `x * y`, unless it does not fit.
pub fn times(x: Exact, y: Exact) -> (r: Option<Exact>)
    requires
        x.wf(),
        y.wf(),
    ensures
        r == product_of(x, y),
        r matches Some(z) ==> z.wf(),
{
    let (xn, xd) = x.parts();
    let (yn, yd) = y.parts();
    proof {
        lemma_product_bounds(xn as int, yn as int);
        lemma_product_bounds(xd as int, yd as int);
    }
    reduce(xn * yn, xd * yd)
}

/// `x / y`, unless it does not fit.
pub fn divide(x: Exact, y: Exact) -> (r: Option<Exact>)
    requires
        x.wf(),
        y.wf(),
        y.num() != 0,
    ensures
        r == quotient_of(x, y),
        r matches Some(z) ==> z.wf(),
{
    let (xn, xd) = x.parts();
    let (yn, yd) = y.parts();
    proof {
        lemma_product_bounds(xn as int, yd as int);
        lemma_product_bounds(yn as int, xd as int);
        assert(xd * yn == yn * xd) by (nonlinear_arith);
    }
    if yn > 0 {
        reduce(xn * yd, xd * yn)
    } else {
        reduce(-(xn * yd), -(xd * yn))
    }
}

} // verus!
