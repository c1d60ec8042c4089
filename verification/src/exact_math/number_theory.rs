//! Facts about divisibility and the greatest common divisor that the
//! reduction of rationals to lowest terms rests on.
use vstd::prelude::*;
use vstd::arithmetic::div_mod::*;
use crate::exact_math::bigint::{abs, gcd, tdiv};

verus! {

/// `d` divides `n`: `n` is an integer multiple of `d`.
pub open spec fn divides(d: int, n: int) -> bool {
    exists|k: int| #[trigger] scaled(d, k) == n
}

/// `d * k`, named so that divisibility facts have a trigger.
pub open spec fn scaled(d: int, k: int) -> int {
    d * k
}

/// Coefficients `(x, y)` with `a * x + b * y == gcd(a, b)`, computed along
/// Euclid's recursion.
pub open spec fn bezout(a: nat, b: nat) -> (int, int)
    decreases b,
{
    if b == 0 {
        (1, 0)
    } else {
        let p = bezout(b, a % b);
        (p.1, p.0 - (a / b) as int * p.1)
    }
}

/// Bézout's identity for the coefficients above.
pub proof fn lemma_bezout(a: nat, b: nat)
    ensures
        a * bezout(a, b).0 + b * bezout(a, b).1 == gcd(a, b),
    decreases b,
{
    if b > 0 {
        lemma_bezout(b, a % b);
        let p = bezout(b, a % b);
        let q = (a / b) as int;
        let r = (a % b) as int;
        lemma_fundamental_div_mod(a as int, b as int);
        assert(a == b * q + r);
        assert(b * p.0 + r * p.1 == gcd(b, a % b));
        assert(a * p.1 + b * (p.0 - q * p.1) == b * p.0 + r * p.1) by (nonlinear_arith)
            requires
                a == b * q + r,
        ;
        assert(bezout(a, b) == (p.1, p.0 - q * p.1));
        assert(gcd(a, b) == gcd(b, a % b));
        assert(a * bezout(a, b).0 + b * bezout(a, b).1 == a * p.1 + b * (p.0 - q * p.1));
    } else {
        assert(bezout(a, b) == (1int, 0int));
        assert(a * 1int + b * 0int == a) by (nonlinear_arith);
    }
}

/// The greatest common divisor divides both arguments.
pub proof fn lemma_gcd_divides(a: nat, b: nat)
    ensures
        divides(gcd(a, b) as int, a as int),
        divides(gcd(a, b) as int, b as int),
    decreases b,
{
    let g = gcd(a, b) as int;
    if b == 0 {
        assert(scaled(g, 1) == a as int);
        assert(scaled(g, 0) == 0);
    } else {
        lemma_gcd_divides(b, a % b);
        let k1 = choose|k: int| scaled(g, k) == b as int;
        let k2 = choose|k: int| scaled(g, k) == (a % b) as int;
        let q = (a / b) as int;
        lemma_fundamental_div_mod(a as int, b as int);
        assert(a as int == g * (q * k1 + k2)) by (nonlinear_arith)
            requires
                a as int == b * q + (a % b) as int,
                b as int == g * k1,
                (a % b) as int == g * k2,
        ;
        assert(scaled(g, q * k1 + k2) == a as int);
    }
}

/// The greatest common divisor is positive unless both arguments are zero.
pub proof fn lemma_gcd_positive(a: nat, b: nat)
    requires
        a > 0 || b > 0,
    ensures
        gcd(a, b) > 0,
    decreases b,
{
    if b > 0 {
        lemma_gcd_positive(b, a % b);
    }
}

/// A positive divisor of a positive number is at most that number.
pub proof fn lemma_divisor_le(d: int, n: int)
    requires
        d > 0,
        n > 0,
        divides(d, n),
    ensures
        d <= n,
{
    let k = choose|k: int| scaled(d, k) == n;
    assert(d <= n) by (nonlinear_arith)
        requires
            d > 0,
            n > 0,
            n == d * k,
    ;
}

/// Dividing both arguments by their greatest common divisor leaves coprime
/// quotients.
pub proof fn lemma_coprime_quotients(a: nat, b: nat, ka: nat, kb: nat)
    requires
        gcd(a, b) > 0,
        a == gcd(a, b) * ka,
        b == gcd(a, b) * kb,
    ensures
        gcd(ka, kb) == 1,
{
    let g = gcd(a, b) as int;
    lemma_bezout(a, b);
    let x = bezout(a, b).0;
    let y = bezout(a, b).1;
    assert(ka * x + kb * y == 1) by (nonlinear_arith)
        requires
            g > 0,
            a * x + b * y == g,
            a == g * ka,
            b == g * kb,
    ;
    assert(ka > 0 || kb > 0) by (nonlinear_arith)
        requires
            ka * x + kb * y == 1,
    ;
    lemma_gcd_positive(ka, kb);
    lemma_gcd_divides(ka, kb);
    let h = gcd(ka, kb) as int;
    let m1 = choose|k: int| scaled(h, k) == ka as int;
    let m2 = choose|k: int| scaled(h, k) == kb as int;
    assert(1 == h * (m1 * x + m2 * y)) by (nonlinear_arith)
        requires
            ka * x + kb * y == 1,
            ka as int == h * m1,
            kb as int == h * m2,
    ;
    assert(scaled(h, m1 * x + m2 * y) == 1);
    lemma_divisor_le(h, 1);
}

/// Truncating division of an exact multiple by a positive divisor.
pub proof fn lemma_tdiv_exact(n: int, d: int, k: int)
    requires
        d > 0,
        n == d * k,
    ensures
        tdiv(n, d) == k,
{
    if n >= 0 {
        assert(k >= 0) by (nonlinear_arith)
            requires
                d > 0,
                n >= 0,
                n == d * k,
        ;
        lemma_div_by_multiple(k, d);
        assert((k * d) / d == k);
        assert(n == k * d) by (nonlinear_arith)
            requires
                n == d * k,
        ;
    } else {
        assert(k < 0) by (nonlinear_arith)
            requires
                d > 0,
                n < 0,
                n == d * k,
        ;
        lemma_div_by_multiple(-k, d);
        assert(abs(n) as int == (-k) * d) by (nonlinear_arith)
            requires
                n == d * k,
                n < 0,
        ;
    }
}

/// Two fractions in lowest terms with positive denominators and equal
/// cross products are the same pair.
pub proof fn lemma_lowest_terms_unique(n1: int, d1: int, n2: int, d2: int)
    requires
        d1 > 0,
        d2 > 0,
        gcd(abs(n1), d1 as nat) == 1,
        gcd(abs(n2), d2 as nat) == 1,
        n1 * d2 == n2 * d1,
    ensures
        n1 == n2,
        d1 == d2,
{
    lemma_divides_denominator(n1, d1, n2, d2);
    lemma_divides_denominator(n2, d2, n1, d1);
    lemma_divisor_le(d1, d2);
    lemma_divisor_le(d2, d1);
    assert(n1 == n2) by (nonlinear_arith)
        requires
            d1 == d2,
            d1 > 0,
            n1 * d2 == n2 * d1,
    ;
}

/// With `n1/d1` in lowest terms and `n1 * d2 == n2 * d1`, `d1` divides `d2`.
proof fn lemma_divides_denominator(n1: int, d1: int, n2: int, d2: int)
    requires
        d1 > 0,
        gcd(abs(n1), d1 as nat) == 1,
        n1 * d2 == n2 * d1,
    ensures
        divides(d1, d2),
{
    lemma_bezout(abs(n1), d1 as nat);
    let x = bezout(abs(n1), d1 as nat).0;
    let y = bezout(abs(n1), d1 as nat).1;
    let sx = if n1 < 0 {
        -x
    } else {
        x
    };
    assert(n1 * sx + d1 * y == 1) by (nonlinear_arith)
        requires
            abs(n1) * x + d1 * y == 1,
            sx == (if n1 < 0 {
                -x
            } else {
                x
            }),
            abs(n1) as int == (if n1 < 0 {
                -n1
            } else {
                n1
            }),
    ;
    assert(d2 == d1 * (n2 * sx + d2 * y)) by (nonlinear_arith)
        requires
            n1 * sx + d1 * y == 1,
            n1 * d2 == n2 * d1,
    ;
    assert(scaled(d1, n2 * sx + d2 * y) == d2);
}

} // verus!
