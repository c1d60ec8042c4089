//! Equality and order of fixed-point numbers: those of their numerators.
use vstd::prelude::*;
use core::cmp::Ordering;
use vstd::std_specs::cmp::{PartialEqSpecImpl, PartialOrdSpecImpl};
use crate::deterministic_sim::fixed_point::FixedPoint;
use crate::verified_algorithms::order::{greater, leq, less, same};

verus! {

impl<const DENOM: u64> PartialEq for FixedPoint<DENOM> {
    /// Equal numerators.
    fn eq(&self, other: &Self) -> (r: bool) {
        self.raw() == other.raw()
    }
}

impl<const DENOM: u64> PartialEqSpecImpl for FixedPoint<DENOM> {
    open spec fn obeys_eq_spec() -> bool {
        true
    }

    open spec fn eq_spec(&self, other: &Self) -> bool {
        self.numerator() == other.numerator()
    }
}

impl<const DENOM: u64> PartialOrd for FixedPoint<DENOM> {
    /// The order of the numerators.
    fn partial_cmp(&self, other: &Self) -> (r: Option<Ordering>) {
        let a = self.raw();
        let b = other.raw();
        if a < b {
            Some(Ordering::Less)
        } else if a > b {
            Some(Ordering::Greater)
        } else {
            Some(Ordering::Equal)
        }
    }
}

impl<const DENOM: u64> PartialOrdSpecImpl for FixedPoint<DENOM> {
    open spec fn obeys_partial_cmp_spec() -> bool {
        true
    }

    open spec fn partial_cmp_spec(&self, other: &Self) -> Option<Ordering> {
        if self.numerator() < other.numerator() {
            Some(Ordering::Less)
        } else if self.numerator() > other.numerator() {
            Some(Ordering::Greater)
        } else {
            Some(Ordering::Equal)
        }
    }
}

/// Fixed-point numbers are ordered and compared as their numerators are, so
/// that `from_raw` embeds the `i64` order: `from_raw(a) < from_raw(b)`
/// exactly when `a < b`, and `from_raw(a) == from_raw(b)` exactly when
/// `a == b`.
pub proof fn lemma_order_of_numerators<const DENOM: u64>(x: FixedPoint<DENOM>, y: FixedPoint<DENOM>)
    ensures
        less(x, y) <==> x.numerator() < y.numerator(),
        greater(x, y) <==> x.numerator() > y.numerator(),
        leq(x, y) <==> x.numerator() <= y.numerator(),
        same(x, y) <==> x.numerator() == y.numerator(),
{
}

} // verus!
