//! Operators and conversions of `Rational`.
use vstd::prelude::*;
use crate::exact_math::bigint::BigInt;
use crate::exact_math::rational::{normalize, q_add, q_div, q_mul, q_sub, Rational};

verus! {

impl core::ops::Add for Rational {
    type Output = Rational;

    /// `a/b + c/d = (a*d + c*b) / (b*d)`, reduced.
    fn add(self, rhs: Rational) -> (r: Rational)
        ensures
            r@ == normalize(q_add(self@, rhs@).0, q_add(self@, rhs@).1),
    {
        self.plus(&rhs)
    }
}

impl vstd::std_specs::ops::AddSpecImpl for Rational {
    open spec fn obeys_add_spec() -> bool {
        false
    }

    open spec fn add_req(self, rhs: Rational) -> bool {
        true
    }

    open spec fn add_spec(self, rhs: Rational) -> Rational {
        choose|r: Rational| r@ == normalize(q_add(self@, rhs@).0, q_add(self@, rhs@).1)
    }
}

impl core::ops::Sub for Rational {
    type Output = Rational;

    /// `a/b - c/d = (a*d - c*b) / (b*d)`, reduced.
    fn sub(self, rhs: Rational) -> (r: Rational)
        ensures
            r@ == normalize(q_sub(self@, rhs@).0, q_sub(self@, rhs@).1),
    {
        self.minus(&rhs)
    }
}

impl vstd::std_specs::ops::SubSpecImpl for Rational {
    open spec fn obeys_sub_spec() -> bool {
        false
    }

    open spec fn sub_req(self, rhs: Rational) -> bool {
        true
    }

    open spec fn sub_spec(self, rhs: Rational) -> Rational {
        choose|r: Rational| r@ == normalize(q_sub(self@, rhs@).0, q_sub(self@, rhs@).1)
    }
}

impl core::ops::Mul for Rational {
    type Output = Rational;

    /// `a/b * c/d = (a*c) / (b*d)`, reduced.
    fn mul(self, rhs: Rational) -> (r: Rational)
        ensures
            r@ == normalize(q_mul(self@, rhs@).0, q_mul(self@, rhs@).1),
    {
        self.times(&rhs)
    }
}

impl vstd::std_specs::ops::MulSpecImpl for Rational {
    open spec fn obeys_mul_spec() -> bool {
        false
    }

    open spec fn mul_req(self, rhs: Rational) -> bool {
        true
    }

    open spec fn mul_spec(self, rhs: Rational) -> Rational {
        choose|r: Rational| r@ == normalize(q_mul(self@, rhs@).0, q_mul(self@, rhs@).1)
    }
}

impl core::ops::Div for Rational {
    type Output = Rational;

    /// `a/b / c/d = (a*d) / (b*c)`, reduced; the divisor must not be zero.
    fn div(self, rhs: Rational) -> (r: Rational)
        ensures
            r@ == normalize(q_div(self@, rhs@).0, q_div(self@, rhs@).1),
    {
        self.divided_by(&rhs)
    }
}

impl vstd::std_specs::ops::DivSpecImpl for Rational {
    open spec fn obeys_div_spec() -> bool {
        false
    }

    open spec fn div_req(self, rhs: Rational) -> bool {
        rhs@.0 != 0
    }

    open spec fn div_spec(self, rhs: Rational) -> Rational {
        choose|r: Rational| r@ == normalize(q_div(self@, rhs@).0, q_div(self@, rhs@).1)
    }
}

impl core::ops::Neg for Rational {
    type Output = Rational;

    /// `-(a/b) = (-a)/b`.
    fn neg(self) -> (r: Rational)
        ensures
            r@ == (-self@.0, self@.1),
    {
        self.negated()
    }
}

impl vstd::std_specs::ops::NegSpecImpl for Rational {
    open spec fn obeys_neg_spec() -> bool {
        false
    }

    open spec fn neg_req(self) -> bool {
        true
    }

    open spec fn neg_spec(self) -> Rational {
        choose|r: Rational| r@ == (-self@.0, self@.1)
    }
}

impl PartialEq for Rational {
    fn eq(&self, other: &Self) -> (r: bool) {
        self.equals(other)
    }
}

impl vstd::std_specs::cmp::PartialEqSpecImpl for Rational {
    open spec fn obeys_eq_spec() -> bool {
        true
    }

    open spec fn eq_spec(&self, other: &Rational) -> bool {
        self@ == other@
    }
}

impl Eq for Rational {
}

impl From<i64> for Rational {
    fn from(n: i64) -> (r: Rational)
        ensures
            r@ == (n as int, 1int),
    {
        Rational::from_int(BigInt::from_i64(n))
    }
}

impl vstd::std_specs::convert::FromSpecImpl<i64> for Rational {
    open spec fn obeys_from_spec() -> bool {
        false
    }

    open spec fn from_spec(n: i64) -> Rational {
        choose|r: Rational| r@ == (n as int, 1int)
    }
}

impl From<i32> for Rational {
    fn from(n: i32) -> (r: Rational)
        ensures
            r@ == (n as int, 1int),
    {
        Rational::from_int(BigInt::from_i64(n as i64))
    }
}

impl vstd::std_specs::convert::FromSpecImpl<i32> for Rational {
    open spec fn obeys_from_spec() -> bool {
        false
    }

    open spec fn from_spec(n: i32) -> Rational {
        choose|r: Rational| r@ == (n as int, 1int)
    }
}

impl From<u64> for Rational {
    fn from(n: u64) -> (r: Rational)
        ensures
            r@ == (n as int, 1int),
    {
        Rational::from_int(BigInt::from_u64(n))
    }
}

impl vstd::std_specs::convert::FromSpecImpl<u64> for Rational {
    open spec fn obeys_from_spec() -> bool {
        false
    }

    open spec fn from_spec(n: u64) -> Rational {
        choose|r: Rational| r@ == (n as int, 1int)
    }
}

impl From<BigInt> for Rational {
    fn from(n: BigInt) -> (r: Rational)
        ensures
            r@ == (n@, 1int),
    {
        Rational::from_int(n)
    }
}

impl vstd::std_specs::convert::FromSpecImpl<BigInt> for Rational {
    open spec fn obeys_from_spec() -> bool {
        false
    }

    open spec fn from_spec(n: BigInt) -> Rational {
        choose|r: Rational| r@ == (n@, 1int)
    }
}

} // verus!
