//! SMT-LIB2 sorts.
use vstd::prelude::*;
use crate::text::{nat_text, push_str, write_u64};

verus! {

/// An SMT-LIB2 sort (type) of variables and expressions.
#[derive(Debug, PartialEq, Eq, Hash)]
pub enum Sort {
    /// `Bool`.
    Bool,
    /// Unbounded integers, `Int`.
    Int,
    /// Real numbers, `Real`.
    Real,
    /// Bit-vectors of the given width, `(_ BitVec N)`.
    BitVec(u32),
    /// Arrays from a domain sort to a range sort, `(Array D R)`.
    Array(Box<Sort>, Box<Sort>),
}

/// The SMT-LIB2 text of a sort.
pub open spec fn sort_text(s: Sort) -> Seq<char>
    decreases s,
{
    match s {
        Sort::Bool => "Bool"@,
        Sort::Int => "Int"@,
        Sort::Real => "Real"@,
        Sort::BitVec(w) => "(_ BitVec "@ + nat_text(w as nat) + ")"@,
        Sort::Array(d, r) => "(Array "@ + sort_text(*d) + " "@ + sort_text(*r) + ")"@,
    }
}

/// Appends the SMT-LIB2 text of `s`.
pub fn write_sort(s: &Sort, out: &mut String)
    ensures
        final(out)@ == old(out)@ + sort_text(*s),
    decreases s,
{
    match s {
        Sort::Bool => push_str(out, "Bool"),
        Sort::Int => push_str(out, "Int"),
        Sort::Real => push_str(out, "Real"),
        Sort::BitVec(w) => {
            push_str(out, "(_ BitVec ");
            write_u64(out, *w as u64);
            push_str(out, ")");
        },
        Sort::Array(d, r) => {
            push_str(out, "(Array ");
            write_sort(d, out);
            push_str(out, " ");
            write_sort(r, out);
            push_str(out, ")");
        },
    }
    proof {
        match s {
            Sort::Array(d, r) => {
                assert(final(out)@ =~= old(out)@ + sort_text(*s));
            },
            Sort::BitVec(w) => {
                assert(final(out)@ =~= old(out)@ + sort_text(*s));
            },
            _ => {},
        }
    }
}

/// A copy of `s`.
pub fn copy_sort(s: &Sort) -> (r: Sort)
    ensures
        r == *s,
    decreases s,
{
    match s {
        Sort::Bool => Sort::Bool,
        Sort::Int => Sort::Int,
        Sort::Real => Sort::Real,
        Sort::BitVec(w) => Sort::BitVec(*w),
        Sort::Array(d, r) => Sort::Array(Box::new(copy_sort(d)), Box::new(copy_sort(r))),
    }
}

impl Clone for Sort {
    fn clone(&self) -> (r: Self)
        ensures
            r == *self,
    {
        copy_sort(self)
    }
}

impl Sort {
    /// The SMT-LIB2 text of this sort, such as `Int`, `(_ BitVec 32)` or
    /// `(Array Int Bool)`.
    pub fn to_smtlib2(&self) -> (r: String)
        ensures
            r@ == sort_text(*self),
    {
        let mut out = String::new();
        write_sort(self, &mut out);
        assert(out@ =~= sort_text(*self));
        out
    }
}

} // verus!
