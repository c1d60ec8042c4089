//! Counting occurrences of a value in a sequence.
use vstd::prelude::*;
use vstd::laws_eq::obeys_concrete_eq;
use vstd::std_specs::cmp::PartialEqSpec;

verus! {

/// How many elements of `s` equal `v`.
pub open spec fn occurrences<T>(s: Seq<T>, v: T) -> nat
    decreases s.len(),
{
    if s.len() == 0 {
        0
    } else {
        occurrences(s.drop_last(), v) + if s.last() == v {
            1nat
        } else {
            0nat
        }
    }
}

/// The count of a concatenation is the sum of the counts.
pub proof fn lemma_occurrences_concat<T>(a: Seq<T>, b: Seq<T>, v: T)
    ensures
        occurrences(a + b, v) == occurrences(a, v) + occurrences(b, v),
    decreases b.len(),
{
    if b.len() == 0 {
        assert(a + b =~= a);
    } else {
        lemma_occurrences_concat(a, b.drop_last(), v);
        assert((a + b).drop_last() =~= a + b.drop_last());
        assert((a + b).last() == b.last());
    }
}

/// Splitting at `i` splits the count.
pub proof fn lemma_occurrences_split<T>(s: Seq<T>, i: int, v: T)
    requires
        0 <= i <= s.len(),
    ensures
        occurrences(s, v) == occurrences(s.subrange(0, i), v) + occurrences(
            s.subrange(i, s.len() as int),
            v,
        ),
{
    lemma_occurrences_concat(s.subrange(0, i), s.subrange(i, s.len() as int), v);
    assert(s.subrange(0, i) + s.subrange(i, s.len() as int) =~= s);
}

/// A count never exceeds the length.
pub proof fn lemma_occurrences_bound<T>(s: Seq<T>, v: T)
    ensures
        occurrences(s, v) <= s.len(),
    decreases s.len(),
{
    if s.len() > 0 {
        lemma_occurrences_bound(s.drop_last(), v);
    }
}

/// A positive count has a witness.
pub proof fn lemma_occurrences_witness<T>(s: Seq<T>, v: T) -> (j: int)
    requires
        occurrences(s, v) > 0,
    ensures
        0 <= j < s.len(),
        s[j] == v,
    decreases s.len(),
{
    if s.last() == v {
        s.len() - 1
    } else {
        let j = lemma_occurrences_witness(s.drop_last(), v);
        j
    }
}

/// Two different values together occur at most as often as there are
/// elements.
pub proof fn lemma_occurrences_disjoint<T>(s: Seq<T>, a: T, b: T)
    requires
        a != b,
    ensures
        occurrences(s, a) + occurrences(s, b) <= s.len(),
    decreases s.len(),
{
    if s.len() > 0 {
        lemma_occurrences_disjoint(s.drop_last(), a, b);
    }
}

/// At most one value is held by more than half of the elements: a strict
/// majority, when there is one, is unique. This is what lets a vote over `N`
/// channels outlast `floor(N/2)` faulty ones.
pub proof fn lemma_majority_unique<T>(s: Seq<T>, a: T, b: T)
    requires
        occurrences(s, a) > s.len() / 2,
        occurrences(s, b) > s.len() / 2,
    ensures
        a == b,
{
    if a != b {
        lemma_occurrences_disjoint(s, a, b);
    }
}

/// A range none of whose elements equals `v` counts no `v`.
pub proof fn lemma_occurrences_none<T>(s: Seq<T>, v: T)
    requires
        forall|k: int| 0 <= k < s.len() ==> s[k] != v,
    ensures
        occurrences(s, v) == 0,
    decreases s.len(),
{
    if s.len() > 0 {
        lemma_occurrences_none(s.drop_last(), v);
    }
}

/// The count of `v` is its multiplicity in the multiset of the elements.
pub proof fn lemma_occurrences_multiset<T>(s: Seq<T>, v: T)
    ensures
        occurrences(s, v) == s.to_multiset().count(v),
    decreases s.len(),
{
    broadcast use vstd::seq_lib::group_to_multiset_ensures;
    broadcast use vstd::multiset::group_multiset_axioms;

    if s.len() == 0 {
        assert(s.to_multiset() =~= vstd::multiset::Multiset::empty());
    } else {
        lemma_occurrences_multiset(s.drop_last(), v);
        assert(s.drop_last().push(s.last()) =~= s);
    }
}

/// The type's `==` keeps to its specification and is an equivalence
/// relation: reflexive, symmetric and transitive.
pub open spec fn lawful_eq<T: PartialEq>() -> bool {
    &&& T::obeys_eq_spec()
    &&& forall|x: T| #[trigger] x.eq_spec(&x)
    &&& forall|x: T, y: T| #[trigger] x.eq_spec(&y) ==> y.eq_spec(&x)
    &&& forall|x: T, y: T, z: T| #[trigger] x.eq_spec(&y) && #[trigger] y.eq_spec(&z) ==> x.eq_spec(&z)
}

/// When `==` is equality of values it is an equivalence relation.
pub proof fn lemma_concrete_eq_is_lawful<T: PartialEq>()
    requires
        obeys_concrete_eq::<T>(),
    ensures
        lawful_eq::<T>(),
{
    reveal(obeys_concrete_eq);
}

/// How many elements `x` of `s` have `x == v` by the type's `==`.
pub open spec fn eq_count<T: PartialEq>(s: Seq<T>, v: T) -> nat
    decreases s.len(),
{
    if s.len() == 0 {
        0
    } else {
        eq_count(s.drop_last(), v) + if s.last().eq_spec(&v) {
            1nat
        } else {
            0nat
        }
    }
}

/// When `==` is equality of values, `eq_count` is `occurrences`.
pub proof fn lemma_eq_count_concrete<T: PartialEq>(s: Seq<T>, v: T)
    requires
        obeys_concrete_eq::<T>(),
    ensures
        eq_count(s, v) == occurrences(s, v),
    decreases s.len(),
{
    reveal(obeys_concrete_eq);
    if s.len() > 0 {
        lemma_eq_count_concrete(s.drop_last(), v);
    }
}

/// The `==`-count of a concatenation is the sum of the counts.
pub proof fn lemma_eq_count_concat<T: PartialEq>(a: Seq<T>, b: Seq<T>, v: T)
    ensures
        eq_count(a + b, v) == eq_count(a, v) + eq_count(b, v),
    decreases b.len(),
{
    if b.len() == 0 {
        assert(a + b =~= a);
    } else {
        lemma_eq_count_concat(a, b.drop_last(), v);
        assert((a + b).drop_last() =~= a + b.drop_last());
        assert((a + b).last() == b.last());
    }
}

/// Splitting at `i` splits the `==`-count.
pub proof fn lemma_eq_count_split<T: PartialEq>(s: Seq<T>, i: int, v: T)
    requires
        0 <= i <= s.len(),
    ensures
        eq_count(s, v) == eq_count(s.subrange(0, i), v) + eq_count(s.subrange(i, s.len() as int), v),
{
    lemma_eq_count_concat(s.subrange(0, i), s.subrange(i, s.len() as int), v);
    assert(s.subrange(0, i) + s.subrange(i, s.len() as int) =~= s);
}

/// An `==`-count never exceeds the length.
pub proof fn lemma_eq_count_bound<T: PartialEq>(s: Seq<T>, v: T)
    ensures
        eq_count(s, v) <= s.len(),
    decreases s.len(),
{
    if s.len() > 0 {
        lemma_eq_count_bound(s.drop_last(), v);
    }
}

/// A positive `==`-count has a witness.
pub proof fn lemma_eq_count_witness<T: PartialEq>(s: Seq<T>, v: T) -> (j: int)
    requires
        eq_count(s, v) > 0,
    ensures
        0 <= j < s.len(),
        s[j].eq_spec(&v),
    decreases s.len(),
{
    if s.last().eq_spec(&v) {
        s.len() - 1
    } else {
        let j = lemma_eq_count_witness(s.drop_last(), v);
        j
    }
}

/// Counting one more element of a range by `==`.
pub proof fn lemma_eq_count_extend<T: PartialEq>(s: Seq<T>, i: int, j: int, v: T)
    requires
        0 <= i <= j < s.len(),
    ensures
        eq_count(s.subrange(i, j + 1), v) == eq_count(s.subrange(i, j), v) + if s[j].eq_spec(&v) {
            1nat
        } else {
            0nat
        },
{
    assert(s.subrange(i, j + 1).drop_last() =~= s.subrange(i, j));
}

/// Two values that the same elements are `==` to have the same count.
pub proof fn lemma_eq_count_same_class<T: PartialEq>(s: Seq<T>, a: T, b: T)
    requires
        forall|k: int| 0 <= k < s.len() ==> (#[trigger] s[k].eq_spec(&a) <==> s[k].eq_spec(&b)),
    ensures
        eq_count(s, a) == eq_count(s, b),
    decreases s.len(),
{
    if s.len() > 0 {
        assert(s.last().eq_spec(&a) <==> s.last().eq_spec(&b)) by {
            assert(s[s.len() - 1].eq_spec(&a) <==> s[s.len() - 1].eq_spec(&b));
        }
        assert forall|k: int| 0 <= k < s.drop_last().len() implies (#[trigger] s.drop_last()[k].eq_spec(
            &a,
        ) <==> s.drop_last()[k].eq_spec(&b)) by {
            assert(s[k].eq_spec(&a) <==> s[k].eq_spec(&b));
        }
        lemma_eq_count_same_class(s.drop_last(), a, b);
    }
}

/// Under a lawful `==`, elements that are `==` to each other have the same
/// count.
pub proof fn lemma_eq_count_equal_values<T: PartialEq>(s: Seq<T>, a: T, b: T)
    requires
        lawful_eq::<T>(),
        a.eq_spec(&b),
    ensures
        eq_count(s, a) == eq_count(s, b),
{
    assert forall|k: int| 0 <= k < s.len() implies (#[trigger] s[k].eq_spec(&a) <==> s[k].eq_spec(
        &b,
    )) by {
        assert(b.eq_spec(&a));
    }
    lemma_eq_count_same_class(s, a, b);
}

/// Under a lawful `==`, every element has a first `==` partner: an index
/// `f <= k` whose element is `==` to `s[k]`, with none before it.
pub proof fn lemma_first_eq<T: PartialEq>(s: Seq<T>, k: int) -> (f: int)
    requires
        lawful_eq::<T>(),
        0 <= k < s.len(),
    ensures
        0 <= f <= k,
        s[f].eq_spec(&s[k]),
        eq_count(s.subrange(0, f), s[k]) == 0,
    decreases k,
{
    if eq_count(s.subrange(0, k), s[k]) == 0 {
        assert(s[k].eq_spec(&s[k]));
        k
    } else {
        let j = lemma_eq_count_witness(s.subrange(0, k), s[k]);
        assert(s[j].eq_spec(&s[k]));
        let f = lemma_first_eq(s, j);
        assert(s[f].eq_spec(&s[k]));
        lemma_eq_count_equal_values(s.subrange(0, f), s[j], s[k]);
        f
    }
}

} // verus!
