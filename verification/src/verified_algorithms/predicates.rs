//! Sortedness and permutation.
use vstd::prelude::*;
use vstd::laws_eq::obeys_concrete_eq;
use vstd::std_specs::cmp::PartialEqSpec;
use crate::verified_algorithms::order::{lawful_partial_ord, leq};
use crate::redundancy::count::{
    eq_count, lawful_eq, lemma_concrete_eq_is_lawful, lemma_eq_count_concrete,
    lemma_eq_count_split, lemma_occurrences_multiset,
};

verus! {

broadcast use vstd::seq_lib::group_to_multiset_ensures;

/// Each element is `<=` the next one.
pub open spec fn sorted<T: PartialOrd>(s: Seq<T>) -> bool {
    forall|i: int| 0 <= i < s.len() - 1 ==> #[trigger] leq(s[i], s[i + 1])
}


/// `a` and `b` hold the same elements up to `==`, each as many times: they
/// have the same length and every value is `==` to as many elements of one
/// as of the other.
pub open spec fn same_counts<T: PartialEq>(a: Seq<T>, b: Seq<T>) -> bool {
    &&& a.len() == b.len()
    &&& forall|x: T| #[trigger] eq_count(a, x) == eq_count(b, x)
}

/// How many of the first `n` elements of `b` whose flag in `used` is set
/// are `==` to `x`.
pub open spec fn used_count<T: PartialEq>(b: Seq<T>, used: Seq<bool>, n: int, x: T) -> nat
    decreases n,
{
    if n <= 0 {
        0
    } else {
        used_count(b, used, n - 1, x) + if used[n - 1] && b[n - 1].eq_spec(&x) {
            1nat
        } else {
            0nat
        }
    }
}

/// How many of the first `n` flags are set.
pub open spec fn flags_set(used: Seq<bool>, n: int) -> nat
    decreases n,
{
    if n <= 0 {
        0
    } else {
        flags_set(used, n - 1) + if used[n - 1] {
            1nat
        } else {
            0nat
        }
    }
}

/// Setting the clear flag `j` adds element `j` to the counts of the prefixes
/// that hold it, and one to the number of set flags.
proof fn lemma_set_flag<T: PartialEq>(b: Seq<T>, used: Seq<bool>, j: int, n: int, x: T)
    requires
        0 <= j < used.len(),
        0 <= n <= used.len(),
        !used[j],
    ensures
        used_count(b, used.update(j, true), n, x) == used_count(b, used, n, x) + if n > j
            && b[j].eq_spec(&x) {
            1nat
        } else {
            0nat
        },
        flags_set(used.update(j, true), n) == flags_set(used, n) + if n > j {
            1nat
        } else {
            0nat
        },
    decreases n,
{
    if n > 0 {
        lemma_set_flag(b, used, j, n - 1, x);
    }
}

/// With no flag set, nothing is counted.
proof fn lemma_no_flags<T: PartialEq>(b: Seq<T>, used: Seq<bool>, n: int, x: T)
    requires
        0 <= n <= used.len(),
        forall|m: int| 0 <= m < used.len() ==> !used[m],
    ensures
        used_count(b, used, n, x) == 0,
        flags_set(used, n) == 0,
    decreases n,
{
    if n > 0 {
        lemma_no_flags(b, used, n - 1, x);
    }
}

/// When every element `==` to `x` among the first `n` has its flag set, the
/// flagged count of `x` is its whole count there.
proof fn lemma_all_flagged<T: PartialEq>(b: Seq<T>, used: Seq<bool>, n: int, x: T)
    requires
        0 <= n <= b.len(),
        used.len() == b.len(),
        forall|k: int| 0 <= k < n && #[trigger] b[k].eq_spec(&x) ==> used[k],
    ensures
        used_count(b, used, n, x) == eq_count(b.take(n), x),
    decreases n,
{
    if n > 0 {
        lemma_all_flagged(b, used, n - 1, x);
        assert(b.take(n).drop_last() =~= b.take(n - 1));
    }
}

/// The number of set flags is at most `n`, and it is `n` only when all of
/// the first `n` flags are set.
proof fn lemma_flags_full(used: Seq<bool>, n: int)
    requires
        0 <= n <= used.len(),
    ensures
        flags_set(used, n) <= n,
        flags_set(used, n) == n ==> forall|k: int| 0 <= k < n ==> used[k],
    decreases n,
{
    if n > 0 {
        lemma_flags_full(used, n - 1);
    }
}

/// A count over the first `i + 1` elements is the count over the first `i`
/// and the last one.
proof fn lemma_eq_count_take<T: PartialEq>(a: Seq<T>, i: int, x: T)
    requires
        0 <= i < a.len(),
    ensures
        eq_count(a.take(i + 1), x) == eq_count(a.take(i), x) + if a[i].eq_spec(&x) {
            1nat
        } else {
            0nat
        },
{
    assert(a.take(i + 1).drop_last() =~= a.take(i));
}

/// When `==` is equality of values, holding the same elements up to `==`
/// is having the same multiset.
pub proof fn lemma_same_counts_concrete<T: PartialEq>(a: Seq<T>, b: Seq<T>)
    requires
        obeys_concrete_eq::<T>(),
    ensures
        same_counts(a, b) <==> a.to_multiset() == b.to_multiset(),
{
    assert forall|x: T|
        #![trigger eq_count(a, x)]
        #![trigger eq_count(b, x)]
        #![trigger a.to_multiset().count(x)]
        #![trigger b.to_multiset().count(x)]
        eq_count(a, x) == a.to_multiset().count(x) && eq_count(b, x) == b.to_multiset().count(
            x,
        ) by {
        lemma_eq_count_concrete(a, x);
        lemma_eq_count_concrete(b, x);
        lemma_occurrences_multiset(a, x);
        lemma_occurrences_multiset(b, x);
    }
    if same_counts(a, b) {
        assert(a.to_multiset() =~= b.to_multiset());
    }
    if a.to_multiset() == b.to_multiset() {
        assert(a.len() == a.to_multiset().len() && b.len() == b.to_multiset().len());
        assert forall|x: T| #[trigger] eq_count(a, x) == eq_count(b, x) by {
            assert(a.to_multiset().count(x) == b.to_multiset().count(x));
        }
    }
}

/// Whether `slice` is sorted in non-decreasing order: each element is `<=`
/// the next. Empty and one-element slices are sorted.
pub fn is_sorted<T: PartialOrd>(slice: &[T]) -> (r: bool)
    ensures
        lawful_partial_ord::<T>() ==> r == sorted(slice@),
{
    let n = slice.len();
    if n < 2 {
        return true;
    }
    let mut i: usize = 1;
    while i < n
        invariant
            n == slice@.len(),
            1 <= i <= n,
            lawful_partial_ord::<T>() ==> forall|k: int|
                0 <= k < i - 1 ==> #[trigger] leq(slice@[k], slice@[k + 1]),
        decreases n - i,
    {
        if !slice[i - 1].le(&slice[i]) {
            proof {
                let k = i - 1;
                assert(slice@[k + 1] == slice@[i as int]);
                if lawful_partial_ord::<T>() {
                    assert(!leq(slice@[k as int], slice@[k + 1]));
                }
            }
            return false;
        }
        i = i + 1;
    }
    true
}


/// Whether `b` is a permutation of `a`: both hold the same elements, each as
/// many times, comparing with `==`. Each element of `a` is matched with the
/// first unmatched element of `b` that it is `==` to (quadratic time).
pub fn is_permutation<T: PartialEq>(a: &[T], b: &[T]) -> (r: bool)
    ensures
        lawful_eq::<T>() ==> r == same_counts(a@, b@),
        obeys_concrete_eq::<T>() ==> r == (a@.to_multiset() == b@.to_multiset()),
{
    proof {
        if obeys_concrete_eq::<T>() {
            lemma_same_counts_concrete(a@, b@);
            lemma_concrete_eq_is_lawful::<T>();
        }
    }
    if a.len() != b.len() {
        return false;
    }
    let ghost lw = lawful_eq::<T>();
    let n = b.len();
    let mut used: Vec<bool> = Vec::new();
    let mut k: usize = 0;
    while k < n
        invariant
            n == b@.len(),
            k <= n,
            used@.len() == k,
            forall|m: int| 0 <= m < k ==> !used@[m],
        decreases n - k,
    {
        used.push(false);
        k = k + 1;
    }
    proof {
        assert forall|x: T| #[trigger] used_count(b@, used@, n as int, x) == eq_count(a@.take(0), x) by {
            lemma_no_flags(b@, used@, n as int, x);
            assert(a@.take(0) =~= Seq::<T>::empty());
        }
        if n > 0 {
            lemma_no_flags(b@, used@, n as int, a@[0]);
        }
    }
    let mut i: usize = 0;
    while i < a.len()
        invariant
            n == b@.len(),
            a@.len() == n,
            i <= n,
            used@.len() == n,
            flags_set(used@, n as int) == i,
            lw == lawful_eq::<T>(),
            lw ==> forall|x: T| #[trigger] used_count(b@, used@, n as int, x) == eq_count(a@.take(i as int), x),
        decreases n - i,
    {
        let mut found = false;
        let mut j: usize = 0;
        while j < n
            invariant_except_break
                !found,
                flags_set(used@, n as int) == i,
                lw ==> forall|x: T| #[trigger] used_count(b@, used@, n as int, x) == eq_count(a@.take(i as int), x),
                lw ==> forall|m: int| 0 <= m < j && #[trigger] b@[m].eq_spec(&a@[i as int]) ==> used@[m],
            invariant
                n == b@.len(),
                a@.len() == n,
                i < n,
                j <= n,
                used@.len() == n,
                lw == lawful_eq::<T>(),
            ensures
                !found ==> flags_set(used@, n as int) == i,
                !found ==> lw ==> forall|m: int| 0 <= m < n && #[trigger] b@[m].eq_spec(&a@[i as int]) ==> used@[m],
                !found ==> lw ==> forall|x: T| #[trigger] used_count(b@, used@, n as int, x) == eq_count(a@.take(i as int), x),
                found ==> flags_set(used@, n as int) == i + 1,
                found ==> lw ==> forall|x: T| #[trigger] used_count(b@, used@, n as int, x) == eq_count(a@.take(i + 1), x),
            decreases n - j,
        {
            if !used[j] && a[i].eq(&b[j]) {
                let ghost before = used@;
                used.set(j, true);
                proof {
                    lemma_set_flag(b@, before, j as int, n as int, a@[0]);
                    if lw {
                        assert(a@[i as int].eq_spec(&b@[j as int]));
                        assert(b@[j as int].eq_spec(&a@[i as int]));
                        assert forall|x: T| #[trigger] used_count(b@, used@, n as int, x) == eq_count(
                            a@.take(i + 1),
                            x,
                        ) by {
                            lemma_set_flag(b@, before, j as int, n as int, x);
                            lemma_eq_count_take(a@, i as int, x);
                            if b@[j as int].eq_spec(&x) {
                                assert(a@[i as int].eq_spec(&x));
                            }
                            if a@[i as int].eq_spec(&x) {
                                assert(b@[j as int].eq_spec(&x));
                            }
                        }
                    }
                }
                found = true;
                break;
            }
            proof {
                if lw && !used@[j as int] {
                    assert(!b@[j as int].eq_spec(&a@[i as int])) by {
                        if b@[j as int].eq_spec(&a@[i as int]) {
                            assert(a@[i as int].eq_spec(&b@[j as int]));
                        }
                    }
                }
            }
            j = j + 1;
        }
        if !found {
            proof {
                if lw {
                    let x = a@[i as int];
                    lemma_all_flagged(b@, used@, n as int, x);
                    assert(b@.take(n as int) =~= b@);
                    assert(used_count(b@, used@, n as int, x) == eq_count(a@.take(i as int), x));
                    lemma_eq_count_take(a@, i as int, x);
                    assert(x.eq_spec(&x));
                    lemma_eq_count_split(a@, i + 1, x);
                    assert(a@.subrange(0, i + 1) =~= a@.take(i + 1));
                    assert(eq_count(a@, x) != eq_count(b@, x));
                }
                if obeys_concrete_eq::<T>() {
                    lemma_same_counts_concrete(a@, b@);
                    lemma_concrete_eq_is_lawful::<T>();
                }
            }
            return false;
        }
        i = i + 1;
    }
    proof {
        if lw {
            lemma_flags_full(used@, n as int);
            assert(a@.take(n as int) =~= a@);
            assert(b@.take(n as int) =~= b@);
            assert forall|x: T| #[trigger] eq_count(a@, x) == eq_count(b@, x) by {
                lemma_all_flagged(b@, used@, n as int, x);
                assert(used_count(b@, used@, n as int, x) == eq_count(a@.take(n as int), x));
            }
        }
        if obeys_concrete_eq::<T>() {
            lemma_same_counts_concrete(a@, b@);
        }
    }
    true
}

} // verus!
