//! The order of `Rational` values.
use vstd::prelude::*;
use core::cmp::Ordering;
use vstd::std_specs::cmp::PartialOrdSpecImpl;
use crate::exact_math::rational::{q_lt, Rational};

verus! {

/// The order of two fractions with positive denominators.
pub open spec fn q_order(p: (int, int), q: (int, int)) -> Ordering {
    if q_lt(p, q) {
        Ordering::Less
    } else if p.0 * q.1 == q.0 * p.1 {
        Ordering::Equal
    } else {
        Ordering::Greater
    }
}

impl PartialOrd for Rational {
    /// `a/b <=> c/d` iff `a*d <=> c*b` (both denominators positive).
    fn partial_cmp(&self, other: &Self) -> (r: Option<Ordering>) {
        self.check_lowest_terms();
        other.check_lowest_terms();
        if self.less_than(other) {
            Some(Ordering::Less)
        } else if other.less_than(self) {
            Some(Ordering::Greater)
        } else {
            Some(Ordering::Equal)
        }
    }
}

impl PartialOrdSpecImpl for Rational {
    open spec fn obeys_partial_cmp_spec() -> bool {
        true
    }

    open spec fn partial_cmp_spec(&self, other: &Rational) -> Option<Ordering> {
        Some(q_order(self@, other@))
    }
}

} // verus!
