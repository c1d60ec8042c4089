//! Closed intervals `[lo, hi]` of rationals, for carrying worst-case bounds
//! through a computation.
use vstd::prelude::*;
use crate::exact_math::bigint::BigInt;
use crate::exact_math::rational::{
    in_lowest_terms, lemma_normalize, lemma_normalize_le, lemma_q_le_trans, normalize, q_add,
    q_div, q_le, q_mul, q_sub, q_text, Rational,
};
use crate::text::{push_str, push_string};

verus! {

/// The view of an interval: its lower and upper bound, each a fraction
/// `(numerator, denominator)`.
pub type IntervalView = ((int, int), (int, int));

/// A fraction brought to lowest terms.
pub open spec fn reduced(p: (int, int)) -> (int, int) {
    normalize(p.0, p.1)
}

/// The smaller of two fractions (the first when they are equal).
pub open spec fn q_min(p: (int, int), q: (int, int)) -> (int, int) {
    if q_le(p, q) {
        p
    } else {
        q
    }
}

/// The larger of two fractions (the first when they are equal).
pub open spec fn q_max(p: (int, int), q: (int, int)) -> (int, int) {
    if q_le(q, p) {
        p
    } else {
        q
    }
}

/// The reciprocal `1 / p` in lowest terms.
pub open spec fn q_recip(p: (int, int)) -> (int, int) {
    normalize(p.1, p.0)
}

/// Both bounds are in lowest terms and the lower one is not above the upper.
pub open spec fn iv_wf(a: IntervalView) -> bool {
    in_lowest_terms(a.0) && in_lowest_terms(a.1) && q_le(a.0, a.1)
}

/// `x` lies in `[a.0, a.1]`.
pub open spec fn iv_has(a: IntervalView, x: (int, int)) -> bool {
    q_le(a.0, x) && q_le(x, a.1)
}

/// `[a, b] + [c, d] = [a + c, b + d]`.
pub open spec fn iv_add(a: IntervalView, b: IntervalView) -> IntervalView {
    (reduced(q_add(a.0, b.0)), reduced(q_add(a.1, b.1)))
}

/// `[a, b] - [c, d] = [a - d, b - c]`.
pub open spec fn iv_sub(a: IntervalView, b: IntervalView) -> IntervalView {
    (reduced(q_sub(a.0, b.1)), reduced(q_sub(a.1, b.0)))
}

/// `-[a, b] = [-b, -a]`.
pub open spec fn iv_neg(a: IntervalView) -> IntervalView {
    ((-a.1.0, a.1.1), (-a.0.0, a.0.1))
}

/// `[a, b] * [c, d]`: the least and the greatest of the four corner
/// products `ac, ad, bc, bd`.
pub open spec fn iv_mul(a: IntervalView, b: IntervalView) -> IntervalView {
    let ac = reduced(q_mul(a.0, b.0));
    let ad = reduced(q_mul(a.0, b.1));
    let bc = reduced(q_mul(a.1, b.0));
    let bd = reduced(q_mul(a.1, b.1));
    (q_min(q_min(q_min(ac, ad), bc), bd), q_max(q_max(q_max(ac, ad), bc), bd))
}

/// The bounds' reciprocals, in the same order: `[1 / lo, 1 / hi]`.
pub open spec fn iv_recip(b: IntervalView) -> IntervalView {
    (q_recip(b.0), q_recip(b.1))
}

/// `[a, b] / [c, d] = [a, b] * [1 / c, 1 / d]`.
pub open spec fn iv_div(a: IntervalView, b: IntervalView) -> IntervalView {
    iv_mul(a, iv_recip(b))
}

/// A divisor is accepted when it does not contain zero and its reciprocal
/// bounds `[1 / lo, 1 / hi]` again form an interval.
pub open spec fn iv_div_ok(b: IntervalView) -> bool {
    !iv_has(b, (0, 1)) && q_le(q_recip(b.0), q_recip(b.1))
}

/// The text `[lo, hi]`.
pub open spec fn iv_text(a: IntervalView) -> Seq<char> {
    seq!['['] + q_text(a.0) + seq![',', ' '] + q_text(a.1) + seq![']']
}

/// `min(p, q) <= p`, `min(p, q) <= q`, and `p <= max(p, q)`, `q <= max(p, q)`.
pub proof fn lemma_min_max_bounds(p: (int, int), q: (int, int))
    ensures
        q_le(q_min(p, q), p),
        q_le(q_min(p, q), q),
        q_le(p, q_max(p, q)),
        q_le(q, q_max(p, q)),
{
}

/// Reduction keeps a positive denominator and does not change how two
/// fractions compare.
pub proof fn lemma_reduced_le(p: (int, int), q: (int, int))
    requires
        p.1 > 0,
        q.1 > 0,
    ensures
        reduced(p).1 > 0,
        reduced(q).1 > 0,
        q_le(reduced(p), reduced(q)) == q_le(p, q),
        q_le(reduced(p), q) == q_le(p, q),
        q_le(p, reduced(q)) == q_le(p, q),
{
    lemma_normalize_le(p, q);
    lemma_normalize_le(q, p);
    lemma_normalize_le(p, reduced(q));
}

/// The denominators of a product of fractions with positive denominators
/// stay positive, and so does that of its reduced form.
pub proof fn lemma_mul_denom(p: (int, int), q: (int, int))
    requires
        p.1 > 0,
        q.1 > 0,
    ensures
        q_mul(p, q).1 > 0,
        reduced(q_mul(p, q)).1 > 0,
        in_lowest_terms(reduced(q_mul(p, q))),
{
    assert(p.1 * q.1 > 0) by (nonlinear_arith)
        requires
            p.1 > 0,
            q.1 > 0,
    ;
    lemma_normalize(q_mul(p, q).0, q_mul(p, q).1);
}

/// The least corner product is not above the greatest one.
pub proof fn lemma_iv_mul_ordered(a: IntervalView, b: IntervalView)
    requires
        a.0.1 > 0,
        a.1.1 > 0,
        b.0.1 > 0,
        b.1.1 > 0,
    ensures
        q_le(iv_mul(a, b).0, iv_mul(a, b).1),
        in_lowest_terms(iv_mul(a, b).0),
        in_lowest_terms(iv_mul(a, b).1),
{
    let ac = reduced(q_mul(a.0, b.0));
    let ad = reduced(q_mul(a.0, b.1));
    let bc = reduced(q_mul(a.1, b.0));
    let bd = reduced(q_mul(a.1, b.1));
    lemma_mul_denom(a.0, b.0);
    lemma_mul_denom(a.0, b.1);
    lemma_mul_denom(a.1, b.0);
    lemma_mul_denom(a.1, b.1);
    let m1 = q_min(ac, ad);
    let m2 = q_min(m1, bc);
    let m3 = q_min(m2, bd);
    let n1 = q_max(ac, ad);
    let n2 = q_max(n1, bc);
    let n3 = q_max(n2, bd);
    lemma_min_max_bounds(ac, ad);
    lemma_min_max_bounds(m1, bc);
    lemma_min_max_bounds(m2, bd);
    lemma_min_max_bounds(n1, bc);
    lemma_min_max_bounds(n2, bd);
    lemma_q_le_trans(m3, m2, m1);
    lemma_q_le_trans(m3, m1, ac);
    lemma_q_le_trans(m3, ac, n1);
    lemma_q_le_trans(m3, n1, n2);
    lemma_q_le_trans(m3, n2, n3);
}

/// A closed interval `[lo, hi]` of rationals.
///
/// Every arithmetic operation yields the tightest interval that holds every
/// result of the operation on values taken from the operands.
#[derive(Debug)]
pub struct Interval {
    lo: Rational,
    hi: Rational,
}

impl View for Interval {
    type V = IntervalView;

    /// The pair of bounds `(lo, hi)`.
    closed spec fn view(&self) -> IntervalView {
        (self.lo@, self.hi@)
    }
}

impl Interval {
    #[verifier::type_invariant]
    closed spec fn ordered(self) -> bool {
        q_le(self.lo@, self.hi@)
    }

    /// Every `Interval` has bounds in lowest terms, the lower not above the
    /// upper.
    pub fn check_wf(&self)
        ensures
            iv_wf(self@),
    {
        proof {
            use_type_invariant(self);
        }
        self.lo.check_lowest_terms();
        self.hi.check_lowest_terms();
    }

    /// Creates the interval `[lo, hi]`; `lo` must not be above `hi`.
    pub fn new(lo: Rational, hi: Rational) -> (r: Self)
        requires
            q_le(lo@, hi@),
        ensures
            r@ == (lo@, hi@),
    {
        Interval { lo, hi }
    }

    /// The degenerate interval `[x, x]`.
    pub fn point(x: Rational) -> (r: Self)
        ensures
            r@ == (x@, x@),
    {
        let lo = x.clone();
        Interval { lo, hi: x }
    }

    /// The lower bound.
    pub fn lo(&self) -> (r: &Rational)
        ensures
            r@ == self@.0,
    {
        &self.lo
    }

    /// The upper bound.
    pub fn hi(&self) -> (r: &Rational)
        ensures
            r@ == self@.1,
    {
        &self.hi
    }

    /// The width `hi - lo`.
    pub fn width(&self) -> (r: Rational)
        ensures
            r@ == reduced(q_sub(self@.1, self@.0)),
    {
        self.hi.minus(&self.lo)
    }

    /// The midpoint `(lo + hi) / 2`.
    pub fn midpoint(&self) -> (r: Rational)
        ensures
            r@ == reduced(q_div(reduced(q_add(self@.0, self@.1)), (2, 1))),
    {
        let two = Rational::from_int(BigInt::from_i64(2));
        self.lo.plus(&self.hi).divided_by(&two)
    }

    /// Whether `x` lies in `[lo, hi]`.
    pub fn contains(&self, x: &Rational) -> (r: bool)
        ensures
            r == iv_has(self@, x@),
    {
        self.lo.at_most(x) && x.at_most(&self.hi)
    }

    /// Whether `other` lies entirely inside this interval.
    pub fn contains_interval(&self, other: &Interval) -> (r: bool)
        ensures
            r == (q_le(self@.0, other@.0) && q_le(other@.1, self@.1)),
    {
        self.lo.at_most(&other.lo) && other.hi.at_most(&self.hi)
    }

    /// The smallest interval holding both `self` and `other`.
    pub fn hull(&self, other: &Interval) -> (r: Interval)
        ensures
            r@ == (q_min(self@.0, other@.0), q_max(self@.1, other@.1)),
    {
        proof {
            use_type_invariant(self);
            use_type_invariant(other);
        }
        self.check_wf();
        other.check_wf();
        let lo = if self.lo.at_most(&other.lo) {
            self.lo.clone()
        } else {
            other.lo.clone()
        };
        let hi = if other.hi.at_most(&self.hi) {
            self.hi.clone()
        } else {
            other.hi.clone()
        };
        proof {
            lemma_min_max_bounds(self@.0, other@.0);
            lemma_min_max_bounds(self@.1, other@.1);
            lemma_q_le_trans(lo@, self@.0, self@.1);
            lemma_q_le_trans(lo@, self@.1, hi@);
        }
        Interval { lo, hi }
    }

    /// The text `[lo, hi]`, each bound written as `n` or `n/d`.
    pub fn to_string(&self) -> (r: String)
        ensures
            r@ == iv_text(self@),
    {
        let mut s = String::new();
        push_str(&mut s, "[");
        let lo = self.lo.to_string();
        push_string(&mut s, &lo);
        push_str(&mut s, ", ");
        let hi = self.hi.to_string();
        push_string(&mut s, &hi);
        push_str(&mut s, "]");
        proof {
            reveal_strlit("[");
            reveal_strlit(", ");
            reveal_strlit("]");
        }
        s
    }
}

impl Clone for Interval {
    fn clone(&self) -> (r: Self)
        ensures
            r@ == self@,
    {
        proof {
            use_type_invariant(self);
        }
        Interval { lo: self.lo.clone(), hi: self.hi.clone() }
    }
}

} // verus!
