//! Arbitrary-precision rational numbers, always held in lowest terms.
use vstd::prelude::*;
use crate::exact_math::bigint::{BigInt, abs, gcd, tdiv};
use crate::exact_math::number_theory::{
    lemma_coprime_quotients, lemma_gcd_divides, lemma_gcd_positive, lemma_lowest_terms_unique,
    lemma_tdiv_exact, scaled,
};
use crate::text::{int_text, push_str, push_string};

verus! {

/// A fraction `(numerator, denominator)` is in lowest terms when the
/// denominator is positive and shares no factor with the numerator.
pub open spec fn in_lowest_terms(p: (int, int)) -> bool {
    p.1 > 0 && gcd(abs(p.0), p.1 as nat) == 1
}

/// Two fractions with positive denominators denote the same number.
pub open spec fn same_value(p: (int, int), q: (int, int)) -> bool {
    p.0 * q.1 == q.0 * p.1
}

/// `p < q` for fractions with positive denominators.
pub open spec fn q_lt(p: (int, int), q: (int, int)) -> bool {
    p.0 * q.1 < q.0 * p.1
}

/// `p <= q` for fractions with positive denominators.
pub open spec fn q_le(p: (int, int), q: (int, int)) -> bool {
    p.0 * q.1 <= q.0 * p.1
}

/// The fraction `n / d` (`d != 0`) brought to lowest terms: zero becomes
/// `0/1`; otherwise the signs are moved so that the denominator is positive
/// and both parts are divided by their greatest common divisor.
pub open spec fn normalize(n: int, d: int) -> (int, int) {
    if n == 0 {
        (0, 1)
    } else {
        let m = if d < 0 {
            -n
        } else {
            n
        };
        let e = if d < 0 {
            -d
        } else {
            d
        };
        let g = gcd(abs(m), abs(e)) as int;
        (tdiv(m, g), tdiv(e, g))
    }
}

/// The sum of two fractions, before reduction.
pub open spec fn q_add(p: (int, int), q: (int, int)) -> (int, int) {
    (p.0 * q.1 + q.0 * p.1, p.1 * q.1)
}

/// The difference of two fractions, before reduction.
pub open spec fn q_sub(p: (int, int), q: (int, int)) -> (int, int) {
    (p.0 * q.1 - q.0 * p.1, p.1 * q.1)
}

/// The product of two fractions, before reduction.
pub open spec fn q_mul(p: (int, int), q: (int, int)) -> (int, int) {
    (p.0 * q.0, p.1 * q.1)
}

/// The quotient of two fractions, before reduction.
pub open spec fn q_div(p: (int, int), q: (int, int)) -> (int, int) {
    (p.0 * q.1, p.1 * q.0)
}

/// The decimal text of a fraction in lowest terms: `n` when the denominator
/// is one, `n/d` otherwise.
pub open spec fn q_text(p: (int, int)) -> Seq<char> {
    if p.1 == 1 {
        int_text(p.0)
    } else {
        int_text(p.0) + seq!['/'] + int_text(p.1)
    }
}

/// Normalization yields a fraction in lowest terms with the same value.
pub proof fn lemma_normalize(n: int, d: int)
    requires
        d != 0,
    ensures
        in_lowest_terms(normalize(n, d)),
        same_value(normalize(n, d), (n, d)),
{
    if n == 0 {
        lemma_gcd_one(0);
        assert(0 * d == 0 * 1) by (nonlinear_arith);
    } else {
        let m = if d < 0 {
            -n
        } else {
            n
        };
        let e = if d < 0 {
            -d
        } else {
            d
        };
        let g = gcd(abs(m), abs(e));
        lemma_gcd_positive(abs(m), abs(e));
        lemma_gcd_divides(abs(m), abs(e));
        let ka = choose|k: int| scaled(g as int, k) == abs(m) as int;
        let kb = choose|k: int| scaled(g as int, k) == abs(e) as int;
        assert(ka >= 0 && kb > 0) by (nonlinear_arith)
            requires
                g > 0,
                g * ka == abs(m),
                g * kb == abs(e),
                abs(e) > 0,
        ;
        lemma_coprime_quotients(abs(m), abs(e), ka as nat, kb as nat);
        let sk = if m < 0 {
            -ka
        } else {
            ka
        };
        assert(m == g * sk) by (nonlinear_arith)
            requires
                g * ka == abs(m),
                sk == (if m < 0 {
                    -ka
                } else {
                    ka
                }),
                abs(m) as int == (if m < 0 {
                    -m
                } else {
                    m
                }),
        ;
        lemma_tdiv_exact(m, g as int, sk);
        lemma_tdiv_exact(e, g as int, kb);
        assert(abs(sk) == ka);
        assert(m * d == n * e) by (nonlinear_arith)
            requires
                m == (if d < 0 {
                    -n
                } else {
                    n
                }),
                e == (if d < 0 {
                    -d
                } else {
                    d
                }),
        ;
        assert(sk * d == n * kb) by (nonlinear_arith)
            requires
                g > 0,
                m == g * sk,
                e == g * kb,
                m * d == n * e,
        ;
        assert(normalize(n, d) == (sk, kb));
    }
}

/// `gcd(x, 1) == 1`.
pub proof fn lemma_gcd_one(x: nat)
    ensures
        gcd(x, 1) == 1,
{
    assert(x % 1 == 0);
    assert(gcd(1, 0) == 1);
}

/// Fractions in lowest terms are equal exactly when they denote the same
/// number: every rational number has one representation.
pub proof fn lemma_lowest_terms_canonical(p: (int, int), q: (int, int))
    requires
        in_lowest_terms(p),
        in_lowest_terms(q),
    ensures
        p == q <==> same_value(p, q),
{
    if same_value(p, q) {
        lemma_lowest_terms_unique(p.0, p.1, q.0, q.1);
    }
}

/// Comparing with `<=` does not depend on which representation of a number
/// is used (left operand).
pub proof fn lemma_q_le_same_value_left(p: (int, int), p2: (int, int), q: (int, int))
    requires
        p.1 > 0,
        p2.1 > 0,
        q.1 > 0,
        same_value(p, p2),
    ensures
        q_le(p, q) == q_le(p2, q),
{
    assert(q_le(p, q) ==> q_le(p2, q)) by (nonlinear_arith)
        requires
            p.1 > 0,
            p2.1 > 0,
            p.0 * p2.1 == p2.0 * p.1,
    ;
    assert(q_le(p2, q) ==> q_le(p, q)) by (nonlinear_arith)
        requires
            p.1 > 0,
            p2.1 > 0,
            p.0 * p2.1 == p2.0 * p.1,
    ;
}

/// Comparing with `<=` does not depend on which representation of a number
/// is used (right operand).
pub proof fn lemma_q_le_same_value_right(p: (int, int), q: (int, int), q2: (int, int))
    requires
        p.1 > 0,
        q.1 > 0,
        q2.1 > 0,
        same_value(q, q2),
    ensures
        q_le(p, q) == q_le(p, q2),
{
    assert(q_le(p, q) ==> q_le(p, q2)) by (nonlinear_arith)
        requires
            q.1 > 0,
            q2.1 > 0,
            q.0 * q2.1 == q2.0 * q.1,
    ;
    assert(q_le(p, q2) ==> q_le(p, q)) by (nonlinear_arith)
        requires
            q.1 > 0,
            q2.1 > 0,
            q.0 * q2.1 == q2.0 * q.1,
    ;
}

/// `<=` on fractions with positive denominators is transitive.
pub proof fn lemma_q_le_trans(p: (int, int), q: (int, int), r: (int, int))
    requires
        p.1 > 0,
        q.1 > 0,
        r.1 > 0,
        q_le(p, q),
        q_le(q, r),
    ensures
        q_le(p, r),
{
    assert(p.0 * r.1 <= r.0 * p.1) by (nonlinear_arith)
        requires
            p.1 > 0,
            q.1 > 0,
            r.1 > 0,
            p.0 * q.1 <= q.0 * p.1,
            q.0 * r.1 <= r.0 * q.1,
    ;
}

/// Scaling both sides of `u <= v` by a positive factor keeps the order.
proof fn lemma_scale_le(u: int, v: int, k: int)
    requires
        u <= v,
        k > 0,
    ensures
        u * k <= v * k,
{
    assert(u * k <= v * k) by (nonlinear_arith)
        requires
            u <= v,
            k > 0,
    ;
}

/// Regrouping a product of four factors.
pub proof fn lemma_regroup(p: int, q: int, r: int, s: int)
    ensures
        (p * q) * (r * s) == (p * r) * (q * s),
        (p * q) * (r * s) == (p * s) * (q * r),
        (p * q) * (r * s) == (p * r) * (s * q),
        (p * q) * (r * s) == (p * s) * (r * q),
{
    assert((p * q) * (r * s) == (p * r) * (q * s)) by (nonlinear_arith);
    assert((p * q) * (r * s) == (p * s) * (q * r)) by (nonlinear_arith);
    assert((p * q) * (r * s) == (p * r) * (s * q)) by (nonlinear_arith);
    assert((p * q) * (r * s) == (p * s) * (r * q)) by (nonlinear_arith);
}

/// Sums are monotone: `a <= x` and `b <= y` give `a + b <= x + y`.
pub proof fn lemma_q_add_monotone(a: (int, int), b: (int, int), x: (int, int), y: (int, int))
    requires
        a.1 > 0,
        b.1 > 0,
        x.1 > 0,
        y.1 > 0,
        q_le(a, x),
        q_le(b, y),
    ensures
        q_le(q_add(a, b), q_add(x, y)),
{
    let k1 = b.1 * y.1;
    let k2 = a.1 * x.1;
    assert(k1 > 0 && k2 > 0) by (nonlinear_arith)
        requires
            a.1 > 0,
            b.1 > 0,
            x.1 > 0,
            y.1 > 0,
            k1 == b.1 * y.1,
            k2 == a.1 * x.1,
    ;
    lemma_scale_le(a.0 * x.1, x.0 * a.1, k1);
    lemma_scale_le(b.0 * y.1, y.0 * b.1, k2);
    lemma_regroup(a.0, b.1, x.1, y.1);
    lemma_regroup(b.0, a.1, x.1, y.1);
    lemma_regroup(x.0, y.1, a.1, b.1);
    lemma_regroup(y.0, x.1, a.1, b.1);
    vstd::arithmetic::mul::lemma_mul_is_distributive_add_other_way(x.1 * y.1, a.0 * b.1, b.0 * a.1);
    vstd::arithmetic::mul::lemma_mul_is_distributive_add_other_way(a.1 * b.1, x.0 * y.1, y.0 * x.1);
}

/// Differences are monotone: `a <= x` and `y <= b` give `a - b <= x - y`.
pub proof fn lemma_q_sub_monotone(a: (int, int), b: (int, int), x: (int, int), y: (int, int))
    requires
        a.1 > 0,
        b.1 > 0,
        x.1 > 0,
        y.1 > 0,
        q_le(a, x),
        q_le(y, b),
    ensures
        q_le(q_sub(a, b), q_sub(x, y)),
{
    let k1 = b.1 * y.1;
    let k2 = a.1 * x.1;
    assert(k1 > 0 && k2 > 0) by (nonlinear_arith)
        requires
            a.1 > 0,
            b.1 > 0,
            x.1 > 0,
            y.1 > 0,
            k1 == b.1 * y.1,
            k2 == a.1 * x.1,
    ;
    lemma_scale_le(a.0 * x.1, x.0 * a.1, k1);
    lemma_scale_le(y.0 * b.1, b.0 * y.1, k2);
    lemma_regroup(a.0, b.1, x.1, y.1);
    lemma_regroup(b.0, a.1, x.1, y.1);
    lemma_regroup(x.0, y.1, a.1, b.1);
    lemma_regroup(y.0, x.1, a.1, b.1);
    vstd::arithmetic::mul::lemma_mul_is_distributive_sub_other_way(x.1 * y.1, a.0 * b.1, b.0 * a.1);
    vstd::arithmetic::mul::lemma_mul_is_distributive_sub_other_way(a.1 * b.1, x.0 * y.1, y.0 * x.1);
}

/// The reduced form of a sum, difference or product keeps a positive
/// denominator and the value of the unreduced fraction, so `<=` can be
/// read on either.
pub proof fn lemma_normalize_le(p: (int, int), q: (int, int))
    requires
        p.1 > 0,
        q.1 > 0,
    ensures
        normalize(p.0, p.1).1 > 0,
        q_le(normalize(p.0, p.1), q) == q_le(p, q),
        q_le(q, normalize(p.0, p.1)) == q_le(q, p),
{
    lemma_normalize(p.0, p.1);
    lemma_q_le_same_value_left(normalize(p.0, p.1), p, q);
    lemma_q_le_same_value_right(q, normalize(p.0, p.1), p);
}

/// A non-zero number times its reciprocal is one.
pub proof fn lemma_recip_roundtrip(p: (int, int))
    requires
        in_lowest_terms(p),
        p.0 != 0,
    ensures
        normalize(q_mul(p, normalize(p.1, p.0)).0, q_mul(p, normalize(p.1, p.0)).1) == (1int, 1int),
{
    let r = normalize(p.1, p.0);
    lemma_normalize(p.1, p.0);
    let m = q_mul(p, r);
    assert(m.1 > 0) by (nonlinear_arith)
        requires
            p.1 > 0,
            r.1 > 0,
            m.1 == p.1 * r.1,
    ;
    let u = normalize(m.0, m.1);
    lemma_normalize(m.0, m.1);
    assert(u.0 * m.1 == m.0 * u.1);
    assert(r.0 * p.0 == p.1 * r.1);
    assert(u.0 == u.1) by (nonlinear_arith)
        requires
            u.0 * (p.1 * r.1) == (p.0 * r.0) * u.1,
            r.0 * p.0 == p.1 * r.1,
            p.1 > 0,
            r.1 > 0,
    ;
    lemma_gcd_one(1);
    lemma_lowest_terms_unique(u.0, u.1, 1, 1);
}

/// An exact rational number `numer / denom` in lowest terms.
///
/// - The denominator is always positive and non-zero.
/// - The fraction is always fully reduced (GCD of numerator and denominator is 1).
/// - Backed by arbitrary-precision integers: no overflow, no rounding.
#[derive(Debug)]
pub struct Rational {
    numer: BigInt,
    denom: BigInt,
}

impl View for Rational {
    type V = (int, int);

    /// The pair `(numerator, denominator)`.
    closed spec fn view(&self) -> (int, int) {
        (self.numer@, self.denom@)
    }
}

impl Rational {
    #[verifier::type_invariant]
    closed spec fn lowest_terms(self) -> bool {
        in_lowest_terms(self@)
    }

    /// Every `Rational` is in lowest terms.
    pub fn check_lowest_terms(&self)
        ensures
            in_lowest_terms(self@),
    {
        proof {
            use_type_invariant(self);
        }
    }

    /// Builds the reduced form of `numer / denom`.
    fn reduce(numer: BigInt, denom: BigInt) -> (r: Self)
        requires
            denom@ != 0,
        ensures
            r@ == normalize(numer@, denom@),
    {
        proof {
            lemma_normalize(numer@, denom@);
        }
        if numer.is_zero() {
            return Rational { numer: BigInt::zero(), denom: BigInt::one() };
        }
        let neg = denom.is_negative();
        let m = if neg {
            numer.negated()
        } else {
            numer
        };
        let e = if neg {
            denom.negated()
        } else {
            denom
        };
        let g = m.gcd(&e);
        proof {
            lemma_gcd_positive(abs(m@), abs(e@));
        }
        let n2 = m.quotient(&g);
        let d2 = e.quotient(&g);
        Rational { numer: n2, denom: d2 }
    }

    /// Creates a new `Rational` equal to `numer / denom`, reduced to lowest
    /// terms. The denominator must not be zero.
    pub fn new(numer: BigInt, denom: BigInt) -> (r: Self)
        requires
            denom@ != 0,
        ensures
            r@ == normalize(numer@, denom@),
    {
        Self::reduce(numer, denom)
    }

    /// Creates a `Rational` from `i64` numerator and denominator; the
    /// denominator must not be zero.
    pub fn from_frac(numer: i64, denom: i64) -> (r: Self)
        requires
            denom != 0,
        ensures
            r@ == normalize(numer as int, denom as int),
    {
        Self::new(BigInt::from_i64(numer), BigInt::from_i64(denom))
    }

    /// The integer `n` as a rational.
    pub(crate) fn from_int(n: BigInt) -> (r: Self)
        ensures
            r@ == (n@, 1int),
    {
        proof {
            lemma_gcd_one(abs(n@));
        }
        Rational { numer: n, denom: BigInt::one() }
    }

    /// The rational number zero (0/1).
    pub fn zero() -> (r: Self)
        ensures
            r@ == (0int, 1int),
    {
        Self::from_int(BigInt::zero())
    }

    /// The rational number one (1/1).
    pub fn one() -> (r: Self)
        ensures
            r@ == (1int, 1int),
    {
        Self::from_int(BigInt::one())
    }

    /// Whether this rational is zero.
    pub fn is_zero(&self) -> (r: bool)
        ensures
            r == (self@.0 == 0),
    {
        self.numer.is_zero()
    }

    /// Whether this rational is strictly negative.
    pub fn is_negative(&self) -> (r: bool)
        ensures
            r == (self@.0 < 0),
    {
        self.numer.is_negative()
    }

    /// Whether this rational is strictly positive.
    pub fn is_positive(&self) -> (r: bool)
        ensures
            r == (self@.0 > 0),
    {
        self.numer.is_positive()
    }

    /// The absolute value.
    pub fn abs(&self) -> (r: Self)
        ensures
            r@ == (abs(self@.0) as int, self@.1),
    {
        proof {
            use_type_invariant(self);
        }
        Rational { numer: self.numer.abs(), denom: self.denom.clone() }
    }

    /// The multiplicative reciprocal `1 / self`; `self` must not be zero.
    pub fn recip(&self) -> (r: Self)
        requires
            self@.0 != 0,
        ensures
            r@ == normalize(self@.1, self@.0),
    {
        Self::new(self.denom.clone(), self.numer.clone())
    }

    /// The numerator.
    pub fn numer(&self) -> (r: &BigInt)
        ensures
            r@ == self@.0,
    {
        &self.numer
    }

    /// The denominator (always positive).
    pub fn denom(&self) -> (r: &BigInt)
        ensures
            r@ == self@.1,
            r@ > 0,
    {
        proof {
            use_type_invariant(self);
        }
        &self.denom
    }

    /// `self + rhs` in lowest terms.
    pub fn plus(&self, rhs: &Self) -> (r: Self)
        ensures
            r@ == normalize(q_add(self@, rhs@).0, q_add(self@, rhs@).1),
    {
        proof {
            use_type_invariant(self);
            use_type_invariant(rhs);
            assert(self@.1 * rhs@.1 > 0) by (nonlinear_arith)
                requires
                    self@.1 > 0,
                    rhs@.1 > 0,
            ;
        }
        let n = self.numer.times(&rhs.denom).plus(&rhs.numer.times(&self.denom));
        let d = self.denom.times(&rhs.denom);
        Self::reduce(n, d)
    }

    /// `self - rhs` in lowest terms.
    pub fn minus(&self, rhs: &Self) -> (r: Self)
        ensures
            r@ == normalize(q_sub(self@, rhs@).0, q_sub(self@, rhs@).1),
    {
        proof {
            use_type_invariant(self);
            use_type_invariant(rhs);
            assert(self@.1 * rhs@.1 > 0) by (nonlinear_arith)
                requires
                    self@.1 > 0,
                    rhs@.1 > 0,
            ;
        }
        let n = self.numer.times(&rhs.denom).minus(&rhs.numer.times(&self.denom));
        let d = self.denom.times(&rhs.denom);
        Self::reduce(n, d)
    }

    /// `self * rhs` in lowest terms.
    pub fn times(&self, rhs: &Self) -> (r: Self)
        ensures
            r@ == normalize(q_mul(self@, rhs@).0, q_mul(self@, rhs@).1),
    {
        proof {
            use_type_invariant(self);
            use_type_invariant(rhs);
            assert(self@.1 * rhs@.1 > 0) by (nonlinear_arith)
                requires
                    self@.1 > 0,
                    rhs@.1 > 0,
            ;
        }
        Self::reduce(self.numer.times(&rhs.numer), self.denom.times(&rhs.denom))
    }

    /// `self / rhs` in lowest terms; `rhs` must not be zero.
    pub fn divided_by(&self, rhs: &Self) -> (r: Self)
        requires
            rhs@.0 != 0,
        ensures
            r@ == normalize(q_div(self@, rhs@).0, q_div(self@, rhs@).1),
    {
        proof {
            use_type_invariant(self);
            assert(self@.1 * rhs@.0 != 0) by (nonlinear_arith)
                requires
                    self@.1 > 0,
                    rhs@.0 != 0,
            ;
        }
        Self::reduce(self.numer.times(&rhs.denom), self.denom.times(&rhs.numer))
    }

    /// `-self`.
    pub fn negated(&self) -> (r: Self)
        ensures
            r@ == (-self@.0, self@.1),
    {
        proof {
            use_type_invariant(self);
            assert(abs(-self@.0) == abs(self@.0));
        }
        Rational { numer: self.numer.negated(), denom: self.denom.clone() }
    }

    /// Whether `self < other`.
    pub fn less_than(&self, other: &Self) -> (r: bool)
        ensures
            r == q_lt(self@, other@),
    {
        self.numer.times(&other.denom).less_than(&other.numer.times(&self.denom))
    }

    /// Whether `self <= other`.
    pub fn at_most(&self, other: &Self) -> (r: bool)
        ensures
            r == q_le(self@, other@),
    {
        !other.numer.times(&self.denom).less_than(&self.numer.times(&other.denom))
    }

    /// Whether `self == other`.
    pub fn equals(&self, other: &Self) -> (r: bool)
        ensures
            r == (self@ == other@),
    {
        self.numer.equals(&other.numer) && self.denom.equals(&other.denom)
    }

    /// The smaller of two rationals (`self` when they are equal).
    pub fn min(self, other: Self) -> (r: Self)
        ensures
            r@ == (if q_le(self@, other@) {
                self@
            } else {
                other@
            }),
    {
        if self.at_most(&other) {
            self
        } else {
            other
        }
    }

    /// The larger of two rationals (`self` when they are equal).
    pub fn max(self, other: Self) -> (r: Self)
        ensures
            r@ == (if q_le(other@, self@) {
                self@
            } else {
                other@
            }),
    {
        if other.at_most(&self) {
            self
        } else {
            other
        }
    }

    /// The decimal text: `n` for an integer, `n/d` otherwise.
    pub fn to_string(&self) -> (r: String)
        ensures
            r@ == q_text(self@),
    {
        let mut s = self.numer.to_string();
        let one = BigInt::one();
        if !self.denom.equals(&one) {
            push_str(&mut s, "/");
            proof {
                reveal_strlit("/");
            }
            let d = self.denom.to_string();
            push_string(&mut s, &d);
        }
        s
    }
}

impl Clone for Rational {
    fn clone(&self) -> (r: Self)
        ensures
            r@ == self@,
    {
        proof {
            use_type_invariant(self);
        }
        Rational { numer: self.numer.clone(), denom: self.denom.clone() }
    }
}

} // verus!
