//! Insertion sort.
use vstd::prelude::*;
use crate::verified_algorithms::order::{greater, lemma_total_order, leq, less, total_order};
use crate::verified_algorithms::predicates::sorted;

verus! {

/// Every element is `<=` every later one.
pub open spec fn sorted_pairwise<T: PartialOrd>(s: Seq<T>) -> bool {
    forall|i: int, j: int| 0 <= i < j < s.len() ==> #[trigger] leq(s[i], s[j])
}

/// Under a total order, "each element is `<=` the next" and "each element is
/// `<=` every later one" say the same.
pub proof fn lemma_sorted_pairwise<T: Ord>(s: Seq<T>)
    requires
        total_order::<T>(),
    ensures
        sorted(s) <==> sorted_pairwise(s),
{
    lemma_total_order::<T>();
    if sorted(s) {
        assert forall|i: int, j: int| 0 <= i < j < s.len() implies #[trigger] leq(s[i], s[j]) by {
            lemma_sorted_run(s, i, j);
        }
    }
    if sorted_pairwise(s) {
        assert forall|i: int| 0 <= i < s.len() - 1 implies #[trigger] leq(s[i], s[i + 1]) by {
            assert(leq(s[i], s[i + 1]));
        }
    }
}

/// In a sorted sequence, `s[i] <= s[j]` for `i <= j` (by induction on `j`).
proof fn lemma_sorted_run<T: Ord>(s: Seq<T>, i: int, j: int)
    requires
        total_order::<T>(),
        sorted(s),
        0 <= i <= j < s.len(),
    ensures
        leq(s[i], s[j]),
    decreases j - i,
{
    lemma_total_order::<T>();
    if i == j {
        assert(leq(s[i], s[i]));
    } else {
        lemma_sorted_run(s, i, j - 1);
        assert(leq(s[j - 1], s[(j - 1) + 1]));
        assert(leq(s[i], s[j - 1]) && leq(s[j - 1], s[j]));
    }
}

/// `result` is `orig` rearranged by `perm`: position `k` of `result` holds
/// the element at position `perm[k]` of `orig`, and no position of `orig`
/// is used twice.
pub open spec fn rearranged_by<T>(orig: Seq<T>, result: Seq<T>, perm: Seq<int>) -> bool {
    &&& perm.len() == orig.len()
    &&& result.len() == orig.len()
    &&& forall|k: int|
        0 <= k < perm.len() ==> 0 <= #[trigger] perm[k] < orig.len() && result[k] == orig[perm[k]]
    &&& forall|k: int, l: int| 0 <= k < l < perm.len() ==> #[trigger] perm[k] != #[trigger] perm[l]
}

/// Elements of `result` that compare equal (each `<=` the other) stand in
/// the order of the positions `perm` says they came from.
pub open spec fn ties_keep_order<T: PartialOrd>(result: Seq<T>, perm: Seq<int>) -> bool {
    forall|k: int, l: int|
        0 <= k < l < result.len() && #[trigger] leq(result[k], result[l]) && #[trigger] leq(
            result[l],
            result[k],
        ) ==> perm[k] < perm[l]
}

/// Exchanging the neighbours at `a` and `a + 1`, in the sequence and in the
/// positions it came from, keeps it a rearrangement of `orig`.
proof fn lemma_swap_rearranged<T>(
    orig: Seq<T>,
    before: Seq<T>,
    after: Seq<T>,
    pb: Seq<int>,
    pa: Seq<int>,
    a: int,
)
    requires
        rearranged_by(orig, before, pb),
        0 <= a && a + 1 < before.len(),
        after == before.update(a, before[a + 1]).update(a + 1, before[a]),
        pa == pb.update(a, pb[a + 1]).update(a + 1, pb[a]),
    ensures
        rearranged_by(orig, after, pa),
{
    assert forall|k: int| 0 <= k < pa.len() implies 0 <= #[trigger] pa[k] < orig.len()
        && after[k] == orig[pa[k]] by {
        if k == a {
            assert(pa[k] == pb[a + 1]);
        } else if k == a + 1 {
            assert(pa[k] == pb[a]);
        } else {
            assert(pa[k] == pb[k]);
        }
    }
    assert forall|k: int, l: int| 0 <= k < l < pa.len() implies #[trigger] pa[k]
        != #[trigger] pa[l] by {
        let sk = if k == a { a + 1 } else if k == a + 1 { a } else { k };
        let sl = if l == a { a + 1 } else if l == a + 1 { a } else { l };
        assert(pa[k] == pb[sk] && pa[l] == pb[sl]);
        if sk < sl {
            assert(pb[sk] != pb[sl]);
        } else {
            assert(pb[sl] != pb[sk]);
        }
    }
}

/// Exchanging neighbours at `a` and `a + 1` that do not compare equal keeps
/// every pair of equal elements in the order of the positions they came from.
proof fn lemma_swap_ties<T: Ord>(
    before: Seq<T>,
    after: Seq<T>,
    pb: Seq<int>,
    pa: Seq<int>,
    a: int,
)
    requires
        ties_keep_order(before, pb),
        pb.len() == before.len(),
        0 <= a && a + 1 < before.len(),
        !leq(before[a], before[a + 1]),
        after == before.update(a, before[a + 1]).update(a + 1, before[a]),
        pa == pb.update(a, pb[a + 1]).update(a + 1, pb[a]),
    ensures
        ties_keep_order(after, pa),
{
    assert forall|k: int, l: int|
        0 <= k < l < after.len() && #[trigger] leq(after[k], after[l]) && #[trigger] leq(
            after[l],
            after[k],
        ) implies pa[k] < pa[l] by {
        let sk = if k == a { a + 1 } else if k == a + 1 { a } else { k };
        let sl = if l == a { a + 1 } else if l == a + 1 { a } else { l };
        assert(after[k] == before[sk] && after[l] == before[sl]);
        assert(pa[k] == pb[sk] && pa[l] == pb[sl]);
        if k == a && l == a + 1 {
            assert(leq(before[a], before[a + 1]));
        } else {
            assert(sk < sl);
            assert(leq(before[sk], before[sl]) && leq(before[sl], before[sk]));
        }
    }
}

/// Swaps two elements of a slice (`<[T]>::swap`).
#[verifier::external_body]
fn slice_swap<T>(s: &mut [T], i: usize, j: usize)
    requires
        i < old(s)@.len(),
        j < old(s)@.len(),
    ensures
        final(s)@ == old(s)@.update(i as int, old(s)@[j as int]).update(j as int, old(s)@[i as int]),
{
    s.swap(i, j);
}

/// Sorts `slice` in non-decreasing order with a stable insertion sort: each
/// element in turn moves left past the larger elements before it.
///
/// The result holds the same elements as the input, each as many times, and
/// is a rearrangement of it; for a type whose `Ord` is a total order it is
/// sorted, and the sort is stable: elements that compare equal keep their
/// relative order.
pub fn verified_sort<T: Ord + Clone>(slice: &mut [T])
    ensures
        final(slice)@.to_multiset() == old(slice)@.to_multiset(),
        total_order::<T>() ==> sorted(final(slice)@),
        exists|perm: Seq<int>|
            #![trigger rearranged_by(old(slice)@, final(slice)@, perm)]
            rearranged_by(old(slice)@, final(slice)@, perm) && (total_order::<T>()
                ==> ties_keep_order(final(slice)@, perm)),
{
    let ghost to = total_order::<T>();
    let ghost orig = slice@;
    let ghost mut perm: Seq<int> = Seq::new(slice@.len(), |k: int| k);
    proof {
        if to {
            lemma_total_order::<T>();
        }
    }
    let n = slice.len();
    let mut i: usize = 1;
    while i < n
        invariant
            n == slice@.len(),
            1 <= i || n == 0,
            i <= n || n == 0,
            slice@.to_multiset() == orig.to_multiset(),
            to == total_order::<T>(),
            to ==> forall|p: int, q: int| 0 <= p < q < i ==> #[trigger] leq(slice@[p], slice@[q]),
            rearranged_by(orig, slice@, perm),
            to ==> ties_keep_order(slice@, perm),
        decreases n - i,
    {
        let mut j: usize = i;
        while j > 0
            invariant
                n == slice@.len(),
                1 <= i < n,
                j <= i,
                slice@.to_multiset() == orig.to_multiset(),
                to == total_order::<T>(),
                to ==> forall|p: int, q: int|
                    0 <= p < q <= i && p != j && q != j ==> #[trigger] leq(slice@[p], slice@[q]),
                to ==> forall|q: int| j < q <= i ==> #[trigger] leq(slice@[j as int], slice@[q]),
                rearranged_by(orig, slice@, perm),
                to ==> ties_keep_order(slice@, perm),
            ensures
                to ==> j == 0 || leq(slice@[j - 1], slice@[j as int]),
            decreases j,
        {
            if !slice[j - 1].gt(&slice[j]) {
                proof {
                    if to {
                        lemma_total_order::<T>();
                        assert(!greater(slice@[j - 1], slice@[j as int]));
                    }
                }
                break;
            }
            let ghost before = slice@;
            let ghost pb = perm;
            slice_swap(slice, j - 1, j);
            proof {
                perm = pb.update((j - 1) as int, pb[j as int]).update(j as int, pb[(j - 1) as int]);
                lemma_swap_rearranged(orig, before, slice@, pb, perm, (j - 1) as int);
                if to {
                    lemma_total_order::<T>();
                    assert(!leq(before[(j - 1) as int], before[j as int]));
                    lemma_swap_ties(before, slice@, pb, perm, (j - 1) as int);
                }
                broadcast use vstd::seq_lib::group_to_multiset_ensures;
                broadcast use vstd::multiset::group_multiset_axioms;

                let mid = before.update((j - 1) as int, before[j as int]);
                assert(mid.to_multiset() =~= before.to_multiset().insert(before[j as int]).remove(
                    before[(j - 1) as int],
                ));
                assert(slice@.to_multiset() =~= mid.to_multiset().insert(before[(j - 1) as int]).remove(
                    mid[j as int],
                ));
                if to {
                    lemma_total_order::<T>();
                    assert(greater(before[(j - 1) as int], before[j as int]));
                    assert(less(before[j as int], before[(j - 1) as int]));
                    assert forall|p: int, q: int|
                        0 <= p < q <= i && p != j - 1 && q != j - 1 implies #[trigger] leq(
                        slice@[p],
                        slice@[q],
                    ) by {
                        if p == j {
                            assert(leq(before[(j - 1) as int], before[q]));
                        } else if q == j {
                            assert(leq(before[p], before[(j - 1) as int]));
                        } else {
                            assert(leq(before[p], before[q]));
                        }
                    }
                    assert forall|q: int| j - 1 < q <= i implies #[trigger] leq(
                        slice@[(j - 1) as int],
                        slice@[q],
                    ) by {
                        if q == j {
                        } else {
                            assert(leq(before[j as int], before[q]));
                        }
                    }
                }
            }
            j = j - 1;
        }
        proof {
            if to {
                lemma_total_order::<T>();
                assert forall|p: int, q: int| 0 <= p < q < i + 1 implies #[trigger] leq(
                    slice@[p],
                    slice@[q],
                ) by {
                    if q == j {
                        assert(leq(slice@[(j - 1) as int], slice@[j as int]));
                        if p < j - 1 {
                            assert(leq(slice@[p], slice@[(j - 1) as int]));
                        }
                    } else if p == j {
                    } else {
                    }
                }
            }
        }
        i = i + 1;
    }
    proof {
        if to {
            lemma_total_order::<T>();
            assert forall|k: int| 0 <= k < slice@.len() - 1 implies #[trigger] leq(
                slice@[k],
                slice@[k + 1],
            ) by {
                assert(leq(slice@[k], slice@[k + 1]));
            }
        }
        assert(rearranged_by(orig, slice@, perm) && (to ==> ties_keep_order(slice@, perm)));
    }
}

} // verus!
