//! Exact fractions of 64-bit integers, computed with `num_rational`'s
//! `Rational64`, and the arithmetic facts about them that the chart timing
//! needs.
use vstd::prelude::*;
use vstd::arithmetic::div_mod::*;
use vstd::arithmetic::mul::*;
use num_rational::Rational64;

verus! {

/// A fraction as `Rational64` holds it: numerator and denominator.
#[derive(Debug, Clone, Copy, PartialEq, Eq, Structural)]
pub struct Fraction {
    pub numer: i64,
    pub denom: i64,
}

impl Fraction {
    pub open spec fn pair(self) -> (int, int) {
        (self.numer as int, self.denom as int)
    }
}

/// Two fractions with nonzero denominators have the same value.
pub open spec fn same_value(p: (int, int), q: (int, int)) -> bool {
    p.0 * q.1 == q.0 * p.1
}

/// Greatest common divisor (Euclid's algorithm).
pub open spec fn gcd(a: nat, b: nat) -> nat
    decreases b,
{
    if b == 0 {
        a
    } else {
        gcd(b, a % b)
    }
}

pub open spec fn abs(x: int) -> nat {
    if x < 0 {
        (-x) as nat
    } else {
        x as nat
    }
}

/// `x` divides `a` exactly.
pub open spec fn divides(x: int, a: int) -> bool {
    exists|k: int| a == #[trigger] (x * k)
}

/// The gcd of two naturals, not both zero, is positive and divides both.
pub proof fn lemma_gcd_divides(a: nat, b: nat)
    requires
        a > 0 || b > 0,
    ensures
        gcd(a, b) > 0,
        divides(gcd(a, b) as int, a as int),
        divides(gcd(a, b) as int, b as int),
    decreases b,
{
    if b == 0 {
        assert(a as int == a * 1);
        assert(0int == a * 0);
    } else {
        let r = (a % b) as nat;
        lemma_gcd_divides(b, r);
        let g = gcd(b, r) as int;
        let k1 = choose|k: int| b as int == #[trigger] (g * k);
        let k2 = choose|k: int| r as int == #[trigger] (g * k);
        lemma_fundamental_div_mod(a as int, b as int);
        let q = a as int / b as int;
        assert(a as int == q * b + r);
        assert(q * b == q * (g * k1));
        assert(q * (g * k1) == g * (q * k1)) by (nonlinear_arith);
        assert(a as int == g * (q * k1 + k2)) by (nonlinear_arith)
            requires
                a as int == g * (q * k1) + g * k2,
        ;
    }
}


pub open spec fn fits_i64(x: int) -> bool {
    i64::MIN <= x <= i64::MAX
}

/// The reduced form of `n / d`: numerator and denominator divided by their
/// gcd, with the sign moved to the numerator.
pub open spec fn reduce(n: int, d: int) -> (int, int) {
    let g = gcd(abs(n), abs(d)) as int;
    if d < 0 {
        (-(n / g), -(d / g))
    } else {
        (n / g, d / g)
    }
}

/// `Rational64::new(n, d)` returns without panicking: `d` is not zero and
/// moving the sign to the numerator does not negate `i64::MIN`.
pub open spec fn ratio_new_ok(n: int, d: int) -> bool {
    &&& d != 0
    &&& !(d < 0 && ((n == i64::MIN && d % 2 != 0) || (d == i64::MIN && n % 2 != 0)))
}

/// Least common multiple of two positive denominators, as `num_integer`
/// computes it.
pub open spec fn lcm(a: int, b: int) -> int {
    a * (b / gcd(abs(a), abs(b)) as int)
}

/// The numerator and denominator that `Rational64`'s `+` hands to
/// `Rational64::new` for operands with positive denominators.
pub open spec fn add_terms(a: (int, int), b: (int, int)) -> (int, int) {
    if a.1 == b.1 {
        (a.0 + b.0, a.1)
    } else {
        let l = lcm(a.1, b.1);
        (a.0 * (l / a.1) + b.0 * (l / b.1), l)
    }
}

/// `Rational64`'s `+` does not overflow `i64` on these operands.
pub open spec fn add_ok(a: (int, int), b: (int, int)) -> bool {
    &&& a.1 > 0
    &&& b.1 > 0
    &&& if a.1 == b.1 {
        fits_i64(a.0 + b.0)
    } else {
        let l = lcm(a.1, b.1);
        &&& fits_i64(l)
        &&& fits_i64(a.0 * (l / a.1))
        &&& fits_i64(b.0 * (l / b.1))
        &&& fits_i64(a.0 * (l / a.1) + b.0 * (l / b.1))
    }
}

/// The numerator and denominator that `Rational64`'s `*` hands to
/// `Rational64::new` for operands with positive denominators.
pub open spec fn mul_terms(a: (int, int), b: (int, int)) -> (int, int) {
    let g1 = gcd(abs(a.0), abs(b.1)) as int;
    let g2 = gcd(abs(a.1), abs(b.0)) as int;
    ((a.0 / g1) * (b.0 / g2), (a.1 / g2) * (b.1 / g1))
}

/// `Rational64`'s `*` does not overflow `i64` on these operands.
pub open spec fn mul_ok(a: (int, int), b: (int, int)) -> bool {
    &&& a.1 > 0
    &&& b.1 > 0
    &&& fits_i64(mul_terms(a, b).0)
    &&& fits_i64(mul_terms(a, b).1)
}

/// `Rational64::new(numer, denom)`, taken apart into its numerator and
/// denominator. Claimed: the result is the reduced form of `numer / denom`
/// (the crate divides both by their gcd and makes the denominator positive),
/// and the call does not panic when `ratio_new_ok` holds.
#[verifier::external_body]
pub(crate) fn ratio_new(numer: i64, denom: i64) -> (r: (i64, i64))
    requires
        ratio_new_ok(numer as int, denom as int),
    ensures
        (r.0 as int, r.1 as int) == reduce(numer as int, denom as int),
{
    Rational64::new(numer, denom).into_raw()
}

/// `Rational64::new_raw(a) + Rational64::new_raw(b)`, taken apart. Claimed:
/// for positive denominators the crate brings both operands to the least
/// common multiple of the denominators (or keeps an equal denominator), adds
/// the numerators and reduces the sum with `Rational64::new`; `add_ok` rules
/// out every `i64` overflow on the way.
#[verifier::external_body]
pub(crate) fn ratio_add(a: (i64, i64), b: (i64, i64)) -> (r: (i64, i64))
    requires
        add_ok((a.0 as int, a.1 as int), (b.0 as int, b.1 as int)),
    ensures
        (r.0 as int, r.1 as int) == ({
            let t = add_terms((a.0 as int, a.1 as int), (b.0 as int, b.1 as int));
            reduce(t.0, t.1)
        }),
{
    (Rational64::new_raw(a.0, a.1) + Rational64::new_raw(b.0, b.1)).into_raw()
}

/// `Rational64::new_raw(a) * Rational64::new_raw(b)`, taken apart. Claimed:
/// for positive denominators the crate cancels the cross gcds, multiplies
/// and reduces the product with `Rational64::new`; `mul_ok` rules out every
/// `i64` overflow on the way.
#[verifier::external_body]
pub(crate) fn ratio_mul(a: (i64, i64), b: (i64, i64)) -> (r: (i64, i64))
    requires
        mul_ok((a.0 as int, a.1 as int), (b.0 as int, b.1 as int)),
    ensures
        (r.0 as int, r.1 as int) == ({
            let t = mul_terms((a.0 as int, a.1 as int), (b.0 as int, b.1 as int));
            reduce(t.0, t.1)
        }),
{
    (Rational64::new_raw(a.0, a.1) * Rational64::new_raw(b.0, b.1)).into_raw()
}

proof fn lemma_divides_abs(g: int, a: int)
    requires
        divides(g, abs(a) as int),
    ensures
        divides(g, a),
{
    let k = choose|k: int| abs(a) as int == #[trigger] (g * k);
    if a < 0 {
        assert(a == g * (-k)) by (nonlinear_arith)
            requires
                -a == g * k,
        ;
    }
}

/// The reduced form has a positive denominator and the same value.
pub proof fn lemma_reduce_value(n: int, d: int)
    requires
        d != 0,
    ensures
        reduce(n, d).1 > 0,
        reduce(n, d).0 * d == n * reduce(n, d).1,
{
    let g = gcd(abs(n), abs(d)) as int;
    lemma_gcd_divides(abs(n), abs(d));
    lemma_divides_abs(g, n);
    lemma_divides_abs(g, d);
    let a = choose|k: int| n == #[trigger] (g * k);
    let b = choose|k: int| d == #[trigger] (g * k);
    lemma_div_multiples_vanish(a, g);
    lemma_div_multiples_vanish(b, g);
    assert(g * a / g == a);
    assert(n / g == a);
    assert(d / g == b);
    assert(a * d == n * b) by (nonlinear_arith)
        requires
            n == g * a,
            d == g * b,
    ;
    assert(d < 0 ==> b < 0) by (nonlinear_arith)
        requires
            d == g * b,
            g > 0,
    ;
    assert(d > 0 ==> b > 0) by (nonlinear_arith)
        requires
            d == g * b,
            g > 0,
    ;
    if d < 0 {
        assert((-a) * d == n * (-b)) by (nonlinear_arith)
            requires
                a * d == n * b,
        ;
    }
}

/// Rust's `/` on integers: the quotient truncated toward zero.
pub open spec fn trunc_div(n: int, d: int) -> int {
    if d < 0 {
        trunc_div_pos(-n, -d)
    } else {
        trunc_div_pos(n, d)
    }
}

pub open spec fn trunc_div_pos(n: int, d: int) -> int {
    if n >= 0 {
        n / d
    } else {
        -((-n) / d)
    }
}

proof fn lemma_floor_value(p: int, q: int, n: int, d: int)
    requires
        q > 0,
        d > 0,
        p * d == n * q,
        n >= 0,
    ensures
        p >= 0,
        p / q == n / d,
{
    lemma_fundamental_div_mod(n, d);
    let t = n / d;
    let m = n % d;
    assert(0 <= m < d);
    assert(p >= 0) by (nonlinear_arith)
        requires
            p * d == n * q,
            n >= 0,
            q > 0,
            d > 0,
    ;
    assert((p - t * q) * d == m * q) by (nonlinear_arith)
        requires
            p * d == n * q,
            n == d * t + m,
    ;
    assert(0 <= p - t * q < q) by (nonlinear_arith)
        requires
            (p - t * q) * d == m * q,
            0 <= m < d,
            q > 0,
            d > 0,
    ;
    lemma_fundamental_div_mod_converse(p, q, t, p - t * q);
}

/// Truncated division depends only on the value of the fraction.
pub proof fn lemma_trunc_value(p: int, q: int, n: int, d: int)
    requires
        q > 0,
        d != 0,
        p * d == n * q,
    ensures
        trunc_div(p, q) == trunc_div(n, d),
{
    let (nn, dd) = if d < 0 { (-n, -d) } else { (n, d) };
    assert(p * dd == nn * q) by (nonlinear_arith)
        requires
            p * d == n * q,
            (d < 0 && nn == -n && dd == -d) || (d >= 0 && nn == n && dd == d),
    ;
    if nn >= 0 {
        lemma_floor_value(p, q, nn, dd);
    } else {
        assert((-p) * dd == (-nn) * q) by (nonlinear_arith)
            requires
                p * dd == nn * q,
        ;
        lemma_floor_value(-p, q, -nn, dd);
        assert(p < 0) by (nonlinear_arith)
            requires
                p * dd == nn * q,
                nn < 0,
                q > 0,
                dd > 0,
        ;
    }
}


proof fn lemma_cancel(x: int, y: int, c: int)
    requires
        c != 0,
        x * c == y * c,
    ensures
        x == y,
{
    assert((x - y) * c == 0) by (nonlinear_arith)
        requires
            x * c == y * c,
    ;
    lemma_mul_is_commutative(x - y, c);
    if x - y != 0 {
        lemma_mul_nonzero(x - y, c);
    }
}

/// Having the same value is transitive through a middle fraction with a
/// nonzero denominator.
pub proof fn lemma_same_value_trans(p: (int, int), q: (int, int), r: (int, int))
    requires
        q.1 != 0,
        same_value(p, q),
        same_value(q, r),
    ensures
        same_value(p, r),
{
    assert((p.0 * r.1) * q.1 == (r.0 * p.1) * q.1) by (nonlinear_arith)
        requires
            p.0 * q.1 == q.0 * p.1,
            q.0 * r.1 == r.0 * q.1,
    ;
    lemma_cancel(p.0 * r.1, r.0 * p.1, q.1);
}

/// The sum that `add_terms` builds has the value of the exact sum.
pub proof fn lemma_add_terms_value(a: (int, int), b: (int, int))
    requires
        a.1 > 0,
        b.1 > 0,
    ensures
        add_terms(a, b).1 > 0,
        same_value(add_terms(a, b), (a.0 * b.1 + b.0 * a.1, a.1 * b.1)),
{
    let t = add_terms(a, b);
    if a.1 == b.1 {
        assert(t.0 * (a.1 * b.1) == (a.0 * b.1 + b.0 * a.1) * t.1) by (nonlinear_arith)
            requires
                t.0 == a.0 + b.0,
                t.1 == a.1,
                a.1 == b.1,
        ;
    } else {
        let g = gcd(abs(a.1), abs(b.1)) as int;
        lemma_gcd_divides(abs(a.1), abs(b.1));
        let j = choose|k: int| a.1 == #[trigger] (g * k);
        let k = choose|k: int| b.1 == #[trigger] (g * k);
        lemma_div_multiples_vanish(k, g);
        assert(g * k / g == k);
        let l = a.1 * k;
        assert(l == lcm(a.1, b.1));
        lemma_div_multiples_vanish(k, a.1);
        assert(l / a.1 == k) by {
            lemma_mul_is_commutative(a.1, k);
        }
        assert(l == b.1 * j) by (nonlinear_arith)
            requires
                l == a.1 * k,
                a.1 == g * j,
                b.1 == g * k,
        ;
        lemma_div_multiples_vanish(j, b.1);
        assert(l / b.1 == j) by {
            lemma_mul_is_commutative(b.1, j);
        }
        assert(l > 0) by (nonlinear_arith)
            requires
                l == a.1 * k,
                a.1 > 0,
                b.1 == g * k,
                b.1 > 0,
                g > 0,
        ;
        let s0 = a.0 * k + b.0 * j;
        assert(a.1 * b.1 == (g * j) * (g * k));
        assert(a.0 * b.1 + b.0 * a.1 == a.0 * (g * k) + b.0 * (g * j));
        assert(a.0 * (g * k) + b.0 * (g * j) == g * s0) by (nonlinear_arith)
            requires
                s0 == a.0 * k + b.0 * j,
        ;
        assert(t.1 == (g * j) * k);
        assert(s0 * ((g * j) * (g * k)) == (g * s0) * ((g * j) * k)) by (nonlinear_arith);
    }
}

/// The product that `mul_terms` builds has the value of the exact product.
pub proof fn lemma_mul_terms_value(a: (int, int), b: (int, int))
    requires
        a.1 > 0,
        b.1 > 0,
    ensures
        mul_terms(a, b).1 > 0,
        same_value(mul_terms(a, b), (a.0 * b.0, a.1 * b.1)),
{
    let t = mul_terms(a, b);
    let g1 = gcd(abs(a.0), abs(b.1)) as int;
    let g2 = gcd(abs(a.1), abs(b.0)) as int;
    lemma_gcd_divides(abs(a.0), abs(b.1));
    lemma_gcd_divides(abs(a.1), abs(b.0));
    lemma_divides_abs(g1, a.0);
    lemma_divides_abs(g2, b.0);
    let x = choose|k: int| a.0 == #[trigger] (g1 * k);
    let y = choose|k: int| b.1 == #[trigger] (g1 * k);
    let z = choose|k: int| a.1 == #[trigger] (g2 * k);
    let w = choose|k: int| b.0 == #[trigger] (g2 * k);
    lemma_div_multiples_vanish(x, g1);
    lemma_div_multiples_vanish(y, g1);
    lemma_div_multiples_vanish(z, g2);
    lemma_div_multiples_vanish(w, g2);
    assert(t.0 == x * w);
    assert(t.1 == z * y);
    assert(y > 0 && z > 0) by (nonlinear_arith)
        requires
            b.1 == g1 * y,
            a.1 == g2 * z,
            g1 > 0,
            g2 > 0,
            a.1 > 0,
            b.1 > 0,
    ;
    assert(t.1 > 0) by (nonlinear_arith)
        requires
            t.1 == z * y,
            y > 0,
            z > 0,
    ;
    assert(a.1 * b.1 == (g2 * z) * (g1 * y));
    assert(a.0 * b.0 == (g1 * x) * (g2 * w));
    assert((x * w) * ((g2 * z) * (g1 * y)) == ((g1 * x) * (g2 * w)) * (z * y)) by (nonlinear_arith);
}

/// At most `2^63` in magnitude: what `i64` values and their reduced forms
/// stay within.
pub open spec fn mag63(x: int) -> bool {
    -0x8000_0000_0000_0000 <= x <= 0x8000_0000_0000_0000
}

/// Euclid's algorithm on machine integers.
fn gcd_u128(a: u128, b: u128) -> (r: u128)
    ensures
        r == gcd(a as nat, b as nat),
{
    let mut x = a;
    let mut y = b;
    while y != 0
        invariant
            gcd(x as nat, y as nat) == gcd(a as nat, b as nat),
        decreases y,
    {
        let t = x % y;
        x = y;
        y = t;
    }
    x
}

fn abs_u128(n: i128) -> (r: u128)
    requires
        mag63(n as int),
    ensures
        r == abs(n as int),
{
    if n >= 0 {
        n as u128
    } else {
        (-n) as u128
    }
}

/// Dividing by a positive divisor does not move away from zero.
proof fn lemma_exact_div_bound(n: int, g: int)
    requires
        g > 0,
        mag63(n),
        divides(g, n),
    ensures
        mag63(n / g),
        n == g * (n / g),
{
    let k = choose|k: int| n == #[trigger] (g * k);
    lemma_div_multiples_vanish(k, g);
    assert(g * k / g == k);
    assert(mag63(k)) by (nonlinear_arith)
        requires
            g > 0,
            n == g * k,
            mag63(n),
    ;
}

/// `n / g` where `g` divides `n`.
fn exact_div(n: i128, g: u128) -> (r: i128)
    requires
        g > 0,
        mag63(n as int),
        divides(g as int, n as int),
    ensures
        r == (n as int) / (g as int),
        mag63(r as int),
{
    let m = abs_u128(n);
    let q = m / g;
    proof {
        lemma_exact_div_bound(n as int, g as int);
        let k = (n as int) / (g as int);
        if n < 0 {
            assert(m as int == (g as int) * (-k)) by (nonlinear_arith)
                requires
                    m as int == -(n as int),
                    n as int == (g as int) * k,
            ;
            lemma_div_multiples_vanish(-k, g as int);
            assert((g as int) * (-k) / (g as int) == -k);
        } else {
            assert(m as int == n as int);
        }
    }
    if n >= 0 {
        q as i128
    } else {
        -(q as i128)
    }
}

/// Computes `reduce(n, d)`.
pub(crate) fn reduce_exec(n: i128, d: i128) -> (r: (i128, i128))
    requires
        d != 0,
        mag63(n as int),
        mag63(d as int),
    ensures
        (r.0 as int, r.1 as int) == reduce(n as int, d as int),
        mag63(r.0 as int),
        mag63(r.1 as int),
{
    let g = gcd_u128(abs_u128(n), abs_u128(d));
    proof {
        lemma_gcd_divides(abs(n as int), abs(d as int));
        lemma_divides_abs(g as int, n as int);
        lemma_divides_abs(g as int, d as int);
    }
    let qn = exact_div(n, g);
    let qd = exact_div(d, g);
    if d < 0 {
        (-qn, -qd)
    } else {
        (qn, qd)
    }
}

pub(crate) fn fits_i64_exec(x: i128) -> (r: bool)
    ensures
        r == fits_i64(x as int),
{
    -0x8000_0000_0000_0000 <= x && x <= 0x7fff_ffff_ffff_ffff
}

/// Tells whether `Rational64::new(n, d)` returns without panicking.
pub(crate) fn new_fits(n: i64, d: i64) -> (r: bool)
    ensures
        r == ratio_new_ok(n as int, d as int),
{
    d != 0 && !(d < 0 && ((n == i64::MIN && d % 2 != 0) || (d == i64::MIN && n % 2 != 0)))
}

/// Tells whether `Rational64`'s `+` computes on these operands without
/// overflow.
pub(crate) fn add_fits(a: (i128, i128), b: (i128, i128)) -> (r: bool)
    requires
        mag63(a.0 as int),
        mag63(a.1 as int),
        mag63(b.0 as int),
        mag63(b.1 as int),
    ensures
        r == add_ok((a.0 as int, a.1 as int), (b.0 as int, b.1 as int)),
{
    if !(a.1 > 0 && b.1 > 0) {
        return false;
    }
    if a.1 == b.1 {
        return fits_i64_exec(a.0 + b.0);
    }
    let g = gcd_u128(a.1 as u128, b.1 as u128);
    proof {
        lemma_gcd_divides(a.1 as nat, b.1 as nat);
        lemma_div_is_ordered_by_denominator(b.1 as int, 1, g as int);
    }
    let factor: u128 = (b.1 as u128) / g;
    assert(0 <= (a.1 as int) * (factor as int) <= 0x8000_0000_0000_0000 * 0x8000_0000_0000_0000) by (nonlinear_arith)
        requires
            0 < a.1 <= 0x8000_0000_0000_0000,
            0 <= factor <= 0x8000_0000_0000_0000,
    ;
    let l: i128 = a.1 * (factor as i128);
    if !fits_i64_exec(l) {
        return false;
    }
    let fa: u128 = (l as u128) / (a.1 as u128);
    let fb: u128 = (l as u128) / (b.1 as u128);
    proof {
        lemma_div_is_ordered_by_denominator(l as int, 1, a.1 as int);
        lemma_div_is_ordered_by_denominator(l as int, 1, b.1 as int);
    }
    assert(mag63(fa as int) && mag63(fb as int));
    assert(-0x8000_0000_0000_0000 * 0x8000_0000_0000_0000 <= (a.0 as int) * (fa as int) <= 0x8000_0000_0000_0000
        * 0x8000_0000_0000_0000) by (nonlinear_arith)
        requires
            mag63(a.0 as int),
            mag63(fa as int),
    ;
    assert(-0x8000_0000_0000_0000 * 0x8000_0000_0000_0000 <= (b.0 as int) * (fb as int) <= 0x8000_0000_0000_0000
        * 0x8000_0000_0000_0000) by (nonlinear_arith)
        requires
            mag63(b.0 as int),
            mag63(fb as int),
    ;
    let x: i128 = a.0 * (fa as i128);
    let y: i128 = b.0 * (fb as i128);
    fits_i64_exec(x) && fits_i64_exec(y) && fits_i64_exec(x + y)
}

/// Tells whether `Rational64`'s `*` computes on these operands without
/// overflow.
pub(crate) fn mul_fits(a: (i128, i128), b: (i128, i128)) -> (r: bool)
    requires
        mag63(a.0 as int),
        mag63(a.1 as int),
        mag63(b.0 as int),
        mag63(b.1 as int),
    ensures
        r == mul_ok((a.0 as int, a.1 as int), (b.0 as int, b.1 as int)),
{
    if !(a.1 > 0 && b.1 > 0) {
        return false;
    }
    let g1 = gcd_u128(abs_u128(a.0), b.1 as u128);
    let g2 = gcd_u128(a.1 as u128, abs_u128(b.0));
    proof {
        lemma_gcd_divides(abs(a.0 as int), b.1 as nat);
        lemma_gcd_divides(a.1 as nat, abs(b.0 as int));
        lemma_divides_abs(g1 as int, a.0 as int);
        lemma_divides_abs(g2 as int, b.0 as int);
        lemma_divides_abs(g1 as int, b.1 as int);
        lemma_divides_abs(g2 as int, a.1 as int);
    }
    let n1 = exact_div(a.0, g1);
    let n2 = exact_div(b.0, g2);
    let d1 = exact_div(a.1, g2);
    let d2 = exact_div(b.1, g1);
    assert(-0x8000_0000_0000_0000 * 0x8000_0000_0000_0000 <= (n1 as int) * (n2 as int) <= 0x8000_0000_0000_0000
        * 0x8000_0000_0000_0000) by (nonlinear_arith)
        requires
            mag63(n1 as int),
            mag63(n2 as int),
    ;
    assert(-0x8000_0000_0000_0000 * 0x8000_0000_0000_0000 <= (d1 as int) * (d2 as int) <= 0x8000_0000_0000_0000
        * 0x8000_0000_0000_0000) by (nonlinear_arith)
        requires
            mag63(d1 as int),
            mag63(d2 as int),
    ;
    fits_i64_exec(n1 * n2) && fits_i64_exec(d1 * d2)
}

/// Computes `add_terms(a, b)` where `Rational64`'s `+` does not overflow.
pub(crate) fn add_terms_exec(a: (i128, i128), b: (i128, i128)) -> (r: (i128, i128))
    requires
        mag63(a.0 as int),
        mag63(a.1 as int),
        mag63(b.0 as int),
        mag63(b.1 as int),
        add_ok((a.0 as int, a.1 as int), (b.0 as int, b.1 as int)),
    ensures
        (r.0 as int, r.1 as int) == add_terms((a.0 as int, a.1 as int), (b.0 as int, b.1 as int)),
        fits_i64(r.0 as int),
        mag63(r.1 as int),
        r.1 > 0,
{
    if a.1 == b.1 {
        return (a.0 + b.0, a.1);
    }
    let g = gcd_u128(a.1 as u128, b.1 as u128);
    proof {
        lemma_gcd_divides(a.1 as nat, b.1 as nat);
        lemma_div_is_ordered_by_denominator(b.1 as int, 1, g as int);
    }
    let factor: u128 = (b.1 as u128) / g;
    proof {
        lemma_exact_div_bound(b.1 as int, g as int);
        assert(factor > 0) by (nonlinear_arith)
            requires
                b.1 as int == (g as int) * (factor as int),
                b.1 > 0,
                g > 0,
        ;
    }
    assert(0 < (a.1 as int) * (factor as int) <= 0x8000_0000_0000_0000 * 0x8000_0000_0000_0000) by (nonlinear_arith)
        requires
            0 < a.1 <= 0x8000_0000_0000_0000,
            0 < factor <= 0x8000_0000_0000_0000,
    ;
    let l: i128 = a.1 * (factor as i128);
    let fa: u128 = (l as u128) / (a.1 as u128);
    let fb: u128 = (l as u128) / (b.1 as u128);
    let x: i128 = a.0 * (fa as i128);
    let y: i128 = b.0 * (fb as i128);
    (x + y, l)
}

/// Rust's `/` on a nonnegative or negative numerator and a positive
/// denominator.
pub(crate) fn trunc_div_exec(n: i128, d: i128) -> (r: i128)
    requires
        d > 0,
        n > i128::MIN,
    ensures
        r == trunc_div(n as int, d as int),
{
    if n >= 0 {
        ((n as u128) / (d as u128)) as i128
    } else {
        proof {
            lemma_div_is_ordered_by_denominator(-(n as int), 1, d as int);
        }
        -(((-n) as u128 / (d as u128)) as i128)
    }
}

} // verus!
