//! Arithmetic on `Interval`: each operation bounds every result of the
//! operation on members of its operands.
use vstd::prelude::*;
use crate::exact_math::interval::{
    iv_add, iv_div, iv_div_ok, iv_mul, iv_neg, iv_sub, lemma_iv_mul_ordered, lemma_reduced_le,
    Interval,
};
use crate::exact_math::rational::{lemma_q_add_monotone, lemma_q_sub_monotone, q_add, q_sub};

verus! {

impl core::ops::Add for Interval {
    type Output = Interval;

    /// `[a, b] + [c, d] = [a + c, b + d]`.
    fn add(self, rhs: Interval) -> (r: Interval)
        ensures
            r@ == iv_add(self@, rhs@),
    {
        self.check_wf();
        rhs.check_wf();
        let lo = self.lo().plus(rhs.lo());
        let hi = self.hi().plus(rhs.hi());
        proof {
            lemma_q_add_monotone(self@.0, rhs@.0, self@.1, rhs@.1);
            lemma_add_denoms(self@.0, rhs@.0);
            lemma_add_denoms(self@.1, rhs@.1);
            lemma_reduced_le(q_add(self@.0, rhs@.0), q_add(self@.1, rhs@.1));
        }
        Interval::new(lo, hi)
    }
}

impl vstd::std_specs::ops::AddSpecImpl for Interval {
    open spec fn obeys_add_spec() -> bool {
        false
    }

    open spec fn add_req(self, rhs: Interval) -> bool {
        true
    }

    open spec fn add_spec(self, rhs: Interval) -> Interval {
        choose|r: Interval| r@ == iv_add(self@, rhs@)
    }
}

/// Sums and differences of fractions with positive denominators have a
/// positive denominator.
proof fn lemma_add_denoms(p: (int, int), q: (int, int))
    requires
        p.1 > 0,
        q.1 > 0,
    ensures
        q_add(p, q).1 > 0,
        q_sub(p, q).1 > 0,
{
    assert(p.1 * q.1 > 0) by (nonlinear_arith)
        requires
            p.1 > 0,
            q.1 > 0,
    ;
}

impl core::ops::Sub for Interval {
    type Output = Interval;

    /// `[a, b] - [c, d] = [a - d, b - c]`.
    fn sub(self, rhs: Interval) -> (r: Interval)
        ensures
            r@ == iv_sub(self@, rhs@),
    {
        self.check_wf();
        rhs.check_wf();
        let lo = self.lo().minus(rhs.hi());
        let hi = self.hi().minus(rhs.lo());
        proof {
            lemma_q_sub_monotone(self@.0, rhs@.1, self@.1, rhs@.0);
            lemma_add_denoms(self@.0, rhs@.1);
            lemma_add_denoms(self@.1, rhs@.0);
            lemma_reduced_le(q_sub(self@.0, rhs@.1), q_sub(self@.1, rhs@.0));
        }
        Interval::new(lo, hi)
    }
}

impl vstd::std_specs::ops::SubSpecImpl for Interval {
    open spec fn obeys_sub_spec() -> bool {
        false
    }

    open spec fn sub_req(self, rhs: Interval) -> bool {
        true
    }

    open spec fn sub_spec(self, rhs: Interval) -> Interval {
        choose|r: Interval| r@ == iv_sub(self@, rhs@)
    }
}

impl core::ops::Neg for Interval {
    type Output = Interval;

    /// `-[a, b] = [-b, -a]`.
    fn neg(self) -> (r: Interval)
        ensures
            r@ == iv_neg(self@),
    {
        self.check_wf();
        let lo = self.hi().negated();
        let hi = self.lo().negated();
        proof {
            let a = self@;
            assert((-a.1.0) * a.0.1 <= (-a.0.0) * a.1.1) by (nonlinear_arith)
                requires
                    a.0.0 * a.1.1 <= a.1.0 * a.0.1,
            ;
        }
        Interval::new(lo, hi)
    }
}

impl vstd::std_specs::ops::NegSpecImpl for Interval {
    open spec fn obeys_neg_spec() -> bool {
        false
    }

    open spec fn neg_req(self) -> bool {
        true
    }

    open spec fn neg_spec(self) -> Interval {
        choose|r: Interval| r@ == iv_neg(self@)
    }
}

impl core::ops::Mul for Interval {
    type Output = Interval;

    /// `[a, b] * [c, d]`: the least and greatest of the corner products.
    fn mul(self, rhs: Interval) -> (r: Interval)
        ensures
            r@ == iv_mul(self@, rhs@),
    {
        self.check_wf();
        rhs.check_wf();
        let ac = self.lo().times(rhs.lo());
        let ad = self.lo().times(rhs.hi());
        let bc = self.hi().times(rhs.lo());
        let bd = self.hi().times(rhs.hi());
        let lo = ac.clone().min(ad.clone()).min(bc.clone()).min(bd.clone());
        let hi = ac.max(ad).max(bc).max(bd);
        proof {
            lemma_iv_mul_ordered(self@, rhs@);
        }
        Interval::new(lo, hi)
    }
}

impl vstd::std_specs::ops::MulSpecImpl for Interval {
    open spec fn obeys_mul_spec() -> bool {
        false
    }

    open spec fn mul_req(self, rhs: Interval) -> bool {
        true
    }

    open spec fn mul_spec(self, rhs: Interval) -> Interval {
        choose|r: Interval| r@ == iv_mul(self@, rhs@)
    }
}

impl core::ops::Div for Interval {
    type Output = Interval;

    /// `[a, b] / [c, d] = [a, b] * [1/c, 1/d]`. The divisor must not contain
    /// zero, and `[1/c, 1/d]` must again be an interval.
    fn div(self, rhs: Interval) -> (r: Interval)
        ensures
            r@ == iv_div(self@, rhs@),
    {
        rhs.check_wf();
        proof {
            let b = rhs@;
            if b.0.0 == 0 || b.1.0 == 0 {
                assert(b.1.0 * b.0.1 >= 0 && b.0.0 <= 0 || b.1.0 >= 0 && b.0.0 * b.1.1 <= 0)
                    by (nonlinear_arith)
                    requires
                        b.0.0 == 0 || b.1.0 == 0,
                        b.0.1 > 0,
                        b.1.1 > 0,
                        b.0.0 * b.1.1 <= b.1.0 * b.0.1,
                ;
                assert(b.0.0 <= 0 && b.1.0 >= 0) by (nonlinear_arith)
                    requires
                        b.1.0 * b.0.1 >= 0 && b.0.0 <= 0 || b.1.0 >= 0 && b.0.0 * b.1.1 <= 0,
                        b.0.1 > 0,
                        b.1.1 > 0,
                ;
            }
        }
        let recip = Interval::new(rhs.lo().recip(), rhs.hi().recip());
        self * recip
    }
}

impl vstd::std_specs::ops::DivSpecImpl for Interval {
    open spec fn obeys_div_spec() -> bool {
        false
    }

    open spec fn div_req(self, rhs: Interval) -> bool {
        iv_div_ok(rhs@)
    }

    open spec fn div_spec(self, rhs: Interval) -> Interval {
        choose|r: Interval| r@ == iv_div(self@, rhs@)
    }
}

impl PartialEq for Interval {
    fn eq(&self, other: &Self) -> (r: bool) {
        self.lo().equals(other.lo()) && self.hi().equals(other.hi())
    }
}

impl vstd::std_specs::cmp::PartialEqSpecImpl for Interval {
    open spec fn obeys_eq_spec() -> bool {
        true
    }

    open spec fn eq_spec(&self, other: &Interval) -> bool {
        self@ == other@
    }
}

impl Eq for Interval {
}

} // verus!
