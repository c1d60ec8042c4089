//! The order that `PartialOrd` and `PartialEq` give a type, as seen by the
//! specifications of this module.
use vstd::prelude::*;
use core::cmp::Ordering;
use vstd::laws_cmp::{
    obeys_cmp, obeys_cmp_ord, obeys_cmp_partial_ord, obeys_partial_cmp_spec_properties,
};
use vstd::laws_eq::obeys_eq_spec_properties;
use vstd::std_specs::cmp::{OrdSpec, PartialEqSpec, PartialOrdSpec};

verus! {

/// `a <= b`: comparing `a` with `b` gives `Less` or `Equal`.
pub open spec fn leq<T: PartialOrd>(a: T, b: T) -> bool {
    a.partial_cmp_spec(&b) == Some(Ordering::Less) || a.partial_cmp_spec(&b) == Some(
        Ordering::Equal,
    )
}

/// `a < b`: comparing `a` with `b` gives `Less`.
pub open spec fn less<T: PartialOrd>(a: T, b: T) -> bool {
    a.partial_cmp_spec(&b) == Some(Ordering::Less)
}

/// `a > b`: comparing `a` with `b` gives `Greater`.
pub open spec fn greater<T: PartialOrd>(a: T, b: T) -> bool {
    a.partial_cmp_spec(&b) == Some(Ordering::Greater)
}

/// `a == b` as the type's `PartialEq` defines it.
pub open spec fn same<T: PartialEq>(a: T, b: T) -> bool {
    a.eq_spec(&b)
}

/// The type's `PartialOrd` keeps to its specification, so that `<=` and
/// `partial_cmp` can be read through `leq`, `less` and `greater`.
pub open spec fn lawful_partial_ord<T: PartialOrd>() -> bool {
    T::obeys_partial_cmp_spec()
}

/// The type's `Ord`, `PartialOrd` and `PartialEq` agree and form a total
/// order, as they do for the integer types.
pub open spec fn total_order<T: Ord>() -> bool {
    obeys_cmp::<T>()
}

/// The facts of a total order, in the terms above.
pub proof fn lemma_total_order<T: Ord>()
    requires
        total_order::<T>(),
    ensures
        T::obeys_eq_spec(),
        lawful_partial_ord::<T>(),
        forall|a: T, b: T| #[trigger] leq(a, b) || leq(b, a),
        forall|a: T, b: T, c: T| #[trigger] leq(a, b) && #[trigger] leq(b, c) ==> leq(a, c),
        forall|a: T, b: T| #[trigger] less(a, b) <==> !leq(b, a),
        forall|a: T, b: T| #[trigger] greater(a, b) <==> less(b, a),
        forall|a: T, b: T| #[trigger] same(a, b) <==> leq(a, b) && leq(b, a),
{
    reveal(obeys_partial_cmp_spec_properties);
    reveal(obeys_cmp_partial_ord);
    reveal(obeys_cmp_ord);
    reveal(obeys_eq_spec_properties);
    assert forall|a: T, b: T| #[trigger] greater(a, b) <==> less(b, a) by {}
    assert forall|a: T, b: T| #[trigger] less(a, b) <==> !leq(b, a) by {
        assert(b.partial_cmp_spec(&a) == Some(b.cmp_spec(&a)));
        assert(a.partial_cmp_spec(&b) == Some(a.cmp_spec(&b)));
    }
    assert forall|a: T, b: T| #[trigger] leq(a, b) || leq(b, a) by {
        assert(b.partial_cmp_spec(&a) == Some(b.cmp_spec(&a)));
        assert(a.partial_cmp_spec(&b) == Some(a.cmp_spec(&b)));
    }
    assert forall|a: T, b: T| #[trigger] same(a, b) <==> leq(a, b) && leq(b, a) by {
        assert(b.partial_cmp_spec(&a) == Some(b.cmp_spec(&a)));
        assert(a.partial_cmp_spec(&b) == Some(a.cmp_spec(&b)));
        if same(a, b) {
            assert(b.eq_spec(&a));
        }
    }
    assert forall|a: T, b: T, c: T| #[trigger] leq(a, b) && #[trigger] leq(b, c) implies leq(
        a,
        c,
    ) by {
        assert(b.partial_cmp_spec(&a) == Some(b.cmp_spec(&a)));
        assert(a.partial_cmp_spec(&b) == Some(a.cmp_spec(&b)));
        assert(c.partial_cmp_spec(&b) == Some(c.cmp_spec(&b)));
        assert(b.partial_cmp_spec(&c) == Some(b.cmp_spec(&c)));
        assert(c.partial_cmp_spec(&a) == Some(c.cmp_spec(&a)));
        assert(a.partial_cmp_spec(&c) == Some(a.cmp_spec(&c)));
        if a.eq_spec(&b) && b.eq_spec(&c) {
            assert(a.eq_spec(&c));
        } else if a.eq_spec(&b) {
            assert(less(b, c));
            if greater(a, c) {
                assert(less(c, a));
                assert(less(c, b));
            } else if a.eq_spec(&c) {
                assert(c.eq_spec(&a));
                assert(c.eq_spec(&b));
                assert(b.eq_spec(&c));
            }
        } else if b.eq_spec(&c) {
            assert(less(a, b));
            if greater(a, c) {
                assert(less(c, a));
                assert(less(c, b));
            } else if a.eq_spec(&c) {
                assert(c.eq_spec(&b));
                assert(a.eq_spec(&b));
            }
        } else {
            assert(less(a, b) && less(b, c));
        }
    }
}

/// `u64` keys of a `BTreeMap` obey its order laws, and a walk of such a map
/// is increasing exactly when each key is below the next as an integer.
pub proof fn lemma_u64_keys_ordered()
    ensures
        vstd::std_specs::btree::key_obeys_cmp_spec::<u64>(),
        forall|s: Seq<u64>|
            #[trigger] vstd::std_specs::btree::increasing_seq(s) <==> forall|i: int, j: int|
                0 <= i < j < s.len() ==> s[i] < s[j],
{
    broadcast use vstd::laws_cmp::group_laws_cmp;

    assert(vstd::laws_cmp::obeys_cmp::<u64>());
    assert forall|s: Seq<u64>|
        #[trigger] vstd::std_specs::btree::increasing_seq(s) <==> forall|i: int, j: int|
            0 <= i < j < s.len() ==> s[i] < s[j] by {
        if vstd::std_specs::btree::increasing_seq(s) {
            assert forall|i: int, j: int| 0 <= i < j < s.len() implies s[i] < s[j] by {
                assert(s[i].cmp_spec(&s[j]) is Less);
            }
        } else {
            assert(!forall|i: int, j: int| 0 <= i < j < s.len() ==> s[i].cmp_spec(&s[j]) is Less);
        }
    }
}

} // verus!
