//! Kind markers: zero-size types that tag AST nodes at the type level.
use vstd::prelude::*;

verus! {

/// The kind of an AST node. Implemented by [`PropKind`], [`TermKind`] and
/// [`TypeKind`] only.
pub trait Kind: super::sealed::Sealed + core::fmt::Debug + Clone + PartialEq {
}

/// The kind of logical propositions (formulas).
#[derive(Debug, Clone, PartialEq, Eq, Hash)]
pub struct PropKind;

/// The kind of mathematical terms (things that have a value).
#[derive(Debug, Clone, PartialEq, Eq, Hash)]
pub struct TermKind;

/// The kind of types (meta-level type expressions).
#[derive(Debug, Clone, PartialEq, Eq, Hash)]
pub struct TypeKind;

impl Kind for PropKind {
}

impl Kind for TermKind {
}

impl Kind for TypeKind {
}

} // verus!
