//! Exact rational arithmetic and rational intervals.

use tpt_formal_lab::exact_math::bigint::{BigInt, Sign};
use tpt_formal_lab::exact_math::interval::Interval;
use tpt_formal_lab::exact_math::rational::Rational;

fn r(n: i64, d: i64) -> Rational {
    Rational::from_frac(n, d)
}

#[test]
fn addition_reduces() {
    let a = Rational::from_frac(1, 3);
    let b = Rational::from_frac(1, 6);
    assert_eq!(a + b, Rational::from_frac(1, 2));
}

#[test]
fn rational_subtraction() {
    let a = Rational::from_frac(3, 4);
    let b = Rational::from_frac(1, 4);
    assert_eq!(a - b, Rational::from_frac(1, 2));
}

#[test]
fn rational_multiplication() {
    let a = Rational::from_frac(2, 3);
    let b = Rational::from_frac(3, 4);
    assert_eq!(a * b, Rational::from_frac(1, 2));
}

#[test]
fn rational_division() {
    let a = Rational::from_frac(1, 2);
    let b = Rational::from_frac(3, 4);
    assert_eq!(a / b, Rational::from_frac(2, 3));
}

#[test]
fn rational_negation() {
    let a = Rational::from_frac(3, 4);
    assert_eq!(-a, Rational::from_frac(-3, 4));
}

#[test]
fn negative_denom_normalised() {
    // -1/-2 should become 1/2
    let r = Rational::new(BigInt::from_i64(-1), BigInt::from_i64(-2));
    assert_eq!(r, Rational::from_frac(1, 2));
    assert!(r.denom().sign() == Sign::Plus);
}

#[test]
fn rational_ordering() {
    let a = Rational::from_frac(1, 3);
    let b = Rational::from_frac(1, 2);
    assert!(a < b);
    assert!(b > a);
    assert_eq!(Rational::from_frac(2, 4), Rational::from_frac(1, 2));
}

#[test]
fn zero_stays_canonical() {
    // 0/anything should reduce to 0/1
    let z = Rational::new(BigInt::zero(), BigInt::from_i64(42));
    assert_eq!(z.denom(), &BigInt::one());
}

#[test]
fn point_one_plus_point_two_is_exact() {
    // In exact arithmetic 0.1 + 0.2 is exactly 3/10.
    let a = Rational::from_frac(1, 10);
    let b = Rational::from_frac(2, 10);
    let c = Rational::from_frac(3, 10);
    assert_eq!(a + b, c);
}

#[test]
fn recip_roundtrip() {
    let a = Rational::from_frac(3, 7);
    let b = a.clone().recip();
    assert_eq!(a * b, Rational::one());
}

#[test]
fn rational_display() {
    assert_eq!(Rational::from_frac(3, 4).to_string(), "3/4");
    assert_eq!(Rational::from_frac(6, 3).to_string(), "2");
    assert_eq!(Rational::from_frac(-1, 2).to_string(), "-1/2");
}

#[test]
fn addition_is_correct() {
    let a = Interval::new(r(1, 10), r(3, 10));
    let b = Interval::new(r(2, 10), r(4, 10));
    let c = a + b;
    assert_eq!(c.lo(), &r(3, 10));
    assert_eq!(c.hi(), &r(7, 10));
}

#[test]
fn subtraction_swaps_rhs_bounds() {
    // [1,3] - [1,2] = [1-2, 3-1] = [-1, 2]
    let a = Interval::new(r(1, 1), r(3, 1));
    let b = Interval::new(r(1, 1), r(2, 1));
    let c = a - b;
    assert_eq!(c.lo(), &r(-1, 1));
    assert_eq!(c.hi(), &r(2, 1));
}

#[test]
fn interval_negation() {
    let a = Interval::new(r(1, 4), r(3, 4));
    let b = -a;
    assert_eq!(b.lo(), &r(-3, 4));
    assert_eq!(b.hi(), &r(-1, 4));
}

#[test]
fn multiplication_all_positive() {
    // [1,2] * [3,4] = [3, 8]
    let a = Interval::new(r(1, 1), r(2, 1));
    let b = Interval::new(r(3, 1), r(4, 1));
    let c = a * b;
    assert_eq!(c.lo(), &r(3, 1));
    assert_eq!(c.hi(), &r(8, 1));
}

#[test]
fn multiplication_mixed_signs() {
    // [-1,2] * [-1,3]  corners: 1, -3, -2, 6 → [min=-3, max=6]
    let a = Interval::new(r(-1, 1), r(2, 1));
    let b = Interval::new(r(-1, 1), r(3, 1));
    let c = a * b;
    assert_eq!(c.lo(), &r(-3, 1));
    assert_eq!(c.hi(), &r(6, 1));
}

#[test]
fn point_interval_width_zero() {
    let p = Interval::point(r(1, 2));
    assert_eq!(p.width(), Rational::zero());
}

#[test]
fn contains() {
    let i = Interval::new(r(0, 1), r(1, 1));
    assert!(i.contains(&r(1, 2)));
    assert!(i.contains(&r(0, 1)));
    assert!(i.contains(&r(1, 1)));
    assert!(!i.contains(&r(2, 1)));
    assert!(!i.contains(&r(-1, 1)));
}

#[test]
fn midpoint() {
    let i = Interval::new(r(0, 1), r(1, 1));
    assert_eq!(i.midpoint(), r(1, 2));
}

#[test]
fn hull() {
    let a = Interval::new(r(0, 1), r(1, 2));
    let b = Interval::new(r(1, 4), r(3, 4));
    let h = a.hull(&b);
    assert_eq!(h.lo(), &r(0, 1));
    assert_eq!(h.hi(), &r(3, 4));
}

#[test]
fn interval_display() {
    let i = Interval::new(r(1, 4), r(3, 4));
    assert_eq!(i.to_string(), "[1/4, 3/4]");
}

// ── Further cases ──────────────────────────────────────────────────────────

#[test]
fn rational_helpers() {
    assert!(Rational::zero().is_zero());
    assert!(r(-1, 3).is_negative());
    assert!(r(1, 3).is_positive());
    assert_eq!(r(-2, 6).abs(), r(1, 3));
    assert_eq!(r(4, -6).numer(), &BigInt::from_i64(-2));
    assert_eq!(r(4, -6).denom(), &BigInt::from_i64(3));
    assert_eq!(Rational::from(7i64), r(7, 1));
    assert_eq!(Rational::from(-7i32), r(-7, 1));
    assert_eq!(Rational::from(7u64), r(7, 1));
    assert_eq!(Rational::from(BigInt::from_i64(9)), r(9, 1));
    assert!(r(1, 2) <= r(2, 4));
    assert!(r(-1, 2) >= r(-2, 3));
}

#[test]
fn bigint_arithmetic_beyond_i64() {
    let big = BigInt::from_u64(u64::MAX);
    let sq = big.times(&big);
    assert_eq!(sq.to_string(), "340282366920938463426481119284349108225");
    assert_eq!(sq.quotient(&big), big);
    assert_eq!(BigInt::from_i64(-12).gcd(&BigInt::from_i64(18)), BigInt::from_i64(6));
    assert_eq!(BigInt::from_i64(-7).quotient(&BigInt::from_i64(2)), BigInt::from_i64(-3));
    assert!(BigInt::from_i64(-1).less_than(&BigInt::zero()));
    assert_eq!(BigInt::from_i64(-5).sign(), Sign::Minus);
    assert_eq!(BigInt::zero().sign(), Sign::NoSign);
}

#[test]
fn interval_division_and_containment() {
    // [1, 2] / [2, 2] = [1, 2] * [1/2, 1/2] = [1/2, 1].
    let a = Interval::new(r(1, 1), r(2, 1));
    let b = Interval::point(r(2, 1));
    let q = a / b;
    assert_eq!(q.lo(), &r(1, 2));
    assert_eq!(q.hi(), &r(1, 1));
    let outer = Interval::new(r(0, 1), r(3, 1));
    assert!(outer.contains_interval(&Interval::new(r(1, 1), r(2, 1))));
    assert!(!outer.contains_interval(&Interval::new(r(1, 1), r(4, 1))));
    assert_eq!(Interval::new(r(1, 4), r(3, 4)), Interval::new(r(2, 8), r(6, 8)));
}

#[test]
fn enclosure_of_a_sum_of_members() {
    // Every sum of members lies in the sum of the intervals.
    let a = Interval::new(r(-1, 3), r(1, 2));
    let b = Interval::new(r(1, 5), r(2, 5));
    let s = a.clone() + b.clone();
    for x in [r(-1, 3), r(0, 1), r(1, 2)] {
        for y in [r(1, 5), r(3, 10), r(2, 5)] {
            assert!(s.contains(&(x.clone() + y)));
        }
    }
    let m = a * b;
    assert!(m.contains(&(r(-1, 3) * r(2, 5))));
    assert!(m.contains(&(r(1, 2) * r(2, 5))));
}
