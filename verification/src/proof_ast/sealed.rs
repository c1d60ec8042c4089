//! The seal that keeps `Kind` implemented by this module's markers only.
use vstd::prelude::*;

verus! {

/// Implemented by the kind markers of this module alone.
pub trait Sealed {
}

impl Sealed for super::kinds::PropKind {
}

impl Sealed for super::kinds::TermKind {
}

impl Sealed for super::kinds::TypeKind {
}

} // verus!
