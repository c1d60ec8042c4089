//! Binary search over a sorted slice.
use vstd::prelude::*;
use vstd::std_specs::cmp::PartialEqSpec;
use crate::verified_algorithms::order::{
    lawful_partial_ord, lemma_total_order, leq, less, same, total_order,
};
use crate::verified_algorithms::predicates::{is_sorted, sorted};
use crate::verified_algorithms::sort::lemma_sorted_pairwise;

verus! {

/// The index of `key` in the sorted slice `slice`, or `None` when no element
/// equals it. The slice must be sorted in non-decreasing order.
///
/// For a type whose `Ord` is a total order: a returned index holds an
/// element equal to `key`, and `None` means that no element equals `key`.
pub fn verified_binary_search<T: Ord>(slice: &[T], key: &T) -> (r: Option<usize>)
    requires
        sorted(slice@),
    ensures
        match r {
            Some(i) => i < slice@.len() && (total_order::<T>() ==> same(slice@[i as int], *key)),
            None => total_order::<T>() ==> forall|k: int|
                0 <= k < slice@.len() ==> !same(#[trigger] slice@[k], *key),
        },
{
    let ghost to = total_order::<T>();
    proof {
        if to {
            lemma_total_order::<T>();
            lemma_sorted_pairwise(slice@);
        }
    }
    let mut lo: usize = 0;
    let mut hi: usize = slice.len();
    while lo < hi
        invariant
            lo <= hi <= slice@.len(),
            to == total_order::<T>(),
            to ==> T::obeys_eq_spec() && lawful_partial_ord::<T>(),
            to ==> forall|a: T, b: T| #[trigger] same(a, b) <==> leq(a, b) && leq(b, a),
            to ==> forall|a: T, b: T| #[trigger] less(a, b) <==> !leq(b, a),
            to ==> forall|a: T, b: T, c: T|
                #[trigger] leq(a, b) && #[trigger] leq(b, c) ==> leq(a, c),
            to ==> forall|p: int, q: int|
                0 <= p < q < slice@.len() ==> #[trigger] leq(slice@[p], slice@[q]),
            to ==> forall|k: int| 0 <= k < lo ==> less(#[trigger] slice@[k], *key),
            to ==> forall|k: int| hi <= k < slice@.len() ==> less(*key, #[trigger] slice@[k]),
        decreases hi - lo,
    {
        let mid = lo + (hi - lo) / 2;
        if slice[mid].eq(key) {
            return Some(mid);
        } else if slice[mid].lt(key) {
            proof {
                if to {
                    assert(less(slice@[mid as int], *key));
                    assert forall|k: int| 0 <= k < mid + 1 implies less(
                        #[trigger] slice@[k],
                        *key,
                    ) by {
                        if k < mid {
                            assert(leq(slice@[k], slice@[mid as int]));
                        }
                    }
                }
            }
            lo = mid + 1;
        } else {
            proof {
                if to {
                    assert(!same(slice@[mid as int], *key));
                    assert(!less(slice@[mid as int], *key));
                    assert(less(*key, slice@[mid as int]));
                    assert forall|k: int| mid <= k < slice@.len() implies less(
                        *key,
                        #[trigger] slice@[k],
                    ) by {
                        if k > mid {
                            assert(leq(slice@[mid as int], slice@[k]));
                        }
                    }
                }
            }
            hi = mid;
        }
    }
    proof {
        if to {
            assert forall|k: int| 0 <= k < slice@.len() implies !same(
                #[trigger] slice@[k],
                *key,
            ) by {
                if k < lo {
                    assert(less(slice@[k], *key));
                } else {
                    assert(less(*key, slice@[k]));
                }
            }
        }
    }
    None
}

/// The sortedness test that `verified_binary_search` requires of its slice:
/// each element is `<=` the next.
pub fn is_sorted_slice<T: PartialOrd>(slice: &[T]) -> (r: bool)
    ensures
        lawful_partial_ord::<T>() ==> r == sorted(slice@),
{
    is_sorted(slice)
}

} // verus!
