//! The Picard operator on rational intervals and the search for a box that
//! it maps into itself.
use vstd::prelude::*;
use crate::exact_math::interval::{IntervalView, q_max, q_min, reduced};
use crate::exact_math::bigint::abs;
use crate::exact_math::rational::{Rational, lemma_q_le_trans, q_add, q_le, q_mul, q_sub};

verus! {

/// A right-hand side `f(t, y)` of an ODE, evaluated at a point.
///
/// An implementation may describe what `eval` returns by `value`; one that
/// does says so by `obeys_value_spec`. Without that, nothing is assumed of
/// the values, and the solver's results are stated only as far as they do
/// not depend on them.
pub trait IntervalFn {
    /// `eval` may be called on every pair of arguments.
    open spec fn ready(&self) -> bool {
        true
    }

    /// `eval` returns `value` of the values of its arguments.
    open spec fn obeys_value_spec(&self) -> bool {
        false
    }

    /// The value of `f(t, y)`.
    open spec fn value(&self, t: (int, int), y: (int, int)) -> (int, int) {
        (0, 1)
    }

    /// Returns the value of `f(t, y)`.
    fn eval(&self, t: &Rational, y: &Rational) -> (r: Rational)
        requires
            self.ready(),
        ensures
            self.obeys_value_spec() ==> r@ == self.value(t@, y@),
    ;
}

/// A closure is a right-hand side.
impl<F: Fn(&Rational, &Rational) -> Rational> IntervalFn for F {
    /// The closure accepts every pair of arguments.
    open spec fn ready(&self) -> bool {
        forall|t: &Rational, y: &Rational| call_requires(*self, (t, y))
    }

    /// The closure answers arguments of equal values with equal values.
    open spec fn obeys_value_spec(&self) -> bool {
        forall|t1: &Rational, y1: &Rational, r1: Rational, t2: &Rational, y2: &Rational, r2: Rational|
            #[trigger] call_ensures(*self, (t1, y1), r1) && #[trigger] call_ensures(*self, (t2, y2), r2) && t1@ == t2@
                && y1@ == y2@ ==> r1@ == r2@
    }

    /// The value that the closure returns for arguments with these values.
    open spec fn value(&self, t: (int, int), y: (int, int)) -> (int, int) {
        let (r, _tr, _yr) = choose|r: Rational, tr: &Rational, yr: &Rational|
            tr@ == t && yr@ == y && #[trigger] call_ensures(*self, (tr, yr), r);
        r@
    }

    fn eval(&self, t: &Rational, y: &Rational) -> (r: Rational) {
        let r = self(t, y);
        proof {
            assert(exists|tr: &Rational, yr: &Rational|
                tr@ == t@ && yr@ == y@ && #[trigger] call_ensures(*self, (tr, yr), r));
        }
        r
    }
}

/// The number of Picard rounds tried from one start box.
pub const PICARD_ROUNDS: u64 = 64;

/// The number of start boxes tried, each with twice the radius of the one
/// before.
pub const WIDENINGS: u64 = 8;

/// The four corners of the box `tb × y`: `(t_lo, y_lo)`, `(t_lo, y_hi)`,
/// `(t_hi, y_lo)`, `(t_hi, y_hi)`.
pub open spec fn corners(tb: IntervalView, y: IntervalView) -> Seq<((int, int), (int, int))> {
    seq![(tb.0, y.0), (tb.0, y.1), (tb.1, y.0), (tb.1, y.1)]
}

/// The values of `f` at the corners of `tb × y`, in corner order.
pub open spec fn corner_values<F: IntervalFn>(f: F, tb: IntervalView, y: IntervalView) -> Seq<(int, int)> {
    corners(tb, y).map_values(|c: ((int, int), (int, int))| f.value(c.0, c.1))
}

/// The least element of a non-empty sequence of fractions (the earliest of
/// equal ones).
pub open spec fn seq_min(v: Seq<(int, int)>) -> (int, int)
    decreases v.len(),
{
    if v.len() <= 1 {
        v[0]
    } else {
        q_min(seq_min(v.drop_last()), v.last())
    }
}

/// The greatest element of a non-empty sequence of fractions (the earliest
/// of equal ones).
pub open spec fn seq_max(v: Seq<(int, int)>) -> (int, int)
    decreases v.len(),
{
    if v.len() <= 1 {
        v[0]
    } else {
        q_max(seq_max(v.drop_last()), v.last())
    }
}

/// The range of `f` over `tb × y` as its corners give it: the least and the
/// greatest corner value.
pub open spec fn corner_range<F: IntervalFn>(f: F, tb: IntervalView, y: IntervalView) -> IntervalView {
    let v = corner_values(f, tb, y);
    (seq_min(v), seq_max(v))
}

/// One Picard round `base + h · f(tb, y)`: the range of `f` over `tb × y`,
/// scaled by the step `h` and added to the enclosure `base` at the start of
/// the step.
pub open spec fn picard_image<F: IntervalFn>(
    f: F,
    base: IntervalView,
    tb: IntervalView,
    y: IntervalView,
    h: (int, int),
) -> IntervalView {
    let r = corner_range(f, tb, y);
    (reduced(q_add(base.0, reduced(q_mul(h, r.0)))), reduced(q_add(base.1, reduced(q_mul(h, r.1)))))
}

/// `inner` lies within `outer`.
pub open spec fn within(inner: IntervalView, outer: IntervalView) -> bool {
    q_le(outer.0, inner.0) && q_le(inner.1, outer.1)
}

/// Picard iteration from `y` for at most `rounds` rounds: the first image
/// that lies within the iterate it was computed from, if any.
pub open spec fn fixpoint_search<F: IntervalFn>(
    f: F,
    base: IntervalView,
    tb: IntervalView,
    y: IntervalView,
    h: (int, int),
    rounds: nat,
) -> Option<IntervalView>
    decreases rounds,
{
    if rounds == 0 {
        None
    } else {
        let next = picard_image(f, base, tb, y, h);
        if within(next, y) {
            Some(next)
        } else {
            fixpoint_search(f, base, tb, next, h, (rounds - 1) as nat)
        }
    }
}

/// A box that the search finds is a fixpoint box: it is the Picard image of
/// some iterate and lies within that iterate.
pub proof fn lemma_fixpoint_found_is_contained<F: IntervalFn>(
    f: F,
    base: IntervalView,
    tb: IntervalView,
    y: IntervalView,
    h: (int, int),
    rounds: nat,
    b: IntervalView,
)
    requires
        fixpoint_search(f, base, tb, y, h, rounds) == Some(b),
    ensures
        exists|prev: IntervalView|
            b == #[trigger] picard_image(f, base, tb, prev, h) && within(b, prev),
    decreases rounds,
{
    let next = picard_image(f, base, tb, y, h);
    if !within(next, y) {
        lemma_fixpoint_found_is_contained(f, base, tb, next, h, (rounds - 1) as nat, b);
    }
}

/// The start box `[lo - h · radius, hi + h · radius]` around `base`.
pub open spec fn start_box(base: IntervalView, h: (int, int), radius: (int, int)) -> IntervalView {
    (reduced(q_sub(base.0, reduced(q_mul(h, radius)))), reduced(q_add(base.1, reduced(q_mul(h, radius)))))
}

/// Twice `r`, in lowest terms.
pub open spec fn double(r: (int, int)) -> (int, int) {
    reduced(q_add(r, r))
}

/// `r` doubled `n` times.
pub open spec fn doubled(r: (int, int), n: nat) -> (int, int)
    decreases n,
{
    if n == 0 {
        r
    } else {
        doubled(double(r), (n - 1) as nat)
    }
}

/// The search over start boxes: from the box of radius `radius`, run the
/// Picard iteration; when it finds no fixpoint, double the radius and try
/// again, `tries` times in all; when every try fails, the start box of the
/// last radius.
pub open spec fn widening_search<F: IntervalFn>(
    f: F,
    base: IntervalView,
    tb: IntervalView,
    h: (int, int),
    radius: (int, int),
    tries: nat,
) -> IntervalView
    decreases tries,
{
    if tries == 0 {
        start_box(base, h, radius)
    } else {
        match fixpoint_search(f, base, tb, start_box(base, h, radius), h, PICARD_ROUNDS as nat) {
            Some(r) => r,
            None => widening_search(f, base, tb, h, double(radius), (tries - 1) as nat),
        }
    }
}

/// The time box `[t, t + h]` of a step.
pub open spec fn time_box(t: (int, int), h: (int, int)) -> IntervalView {
    (t, reduced(q_add(t, h)))
}

/// The first radius tried: `|f(t, lo)| + 1`, with `lo` the lower bound of the
/// enclosure at the start of the step.
pub open spec fn first_radius<F: IntervalFn>(f: F, t: (int, int), base: IntervalView) -> (int, int) {
    let s = f.value(t, base.0);
    reduced(q_add((abs(s.0) as int, s.1), (1, 1)))
}

/// The enclosure at `t + h` that one step computes from the enclosure `base`
/// at `t`.
pub open spec fn enclosure_step<F: IntervalFn>(
    f: F,
    t: (int, int),
    base: IntervalView,
    h: (int, int),
) -> IntervalView {
    widening_search(f, base, time_box(t, h), h, first_radius(f, t, base), WIDENINGS as nat)
}

/// `r` is certified as an enclosure over the step: it is the Picard image of
/// some box `z` and lies within `z`, so the operator maps `z` into itself.
pub open spec fn certified<F: IntervalFn>(
    f: F,
    base: IntervalView,
    tb: IntervalView,
    h: (int, int),
    r: IntervalView,
) -> bool {
    exists|z: IntervalView| #[trigger] picard_image(f, base, tb, z, h) == r && within(r, z)
}

/// A box that the Picard iteration returns is the image of its last iterate
/// and lies within it.
pub proof fn lemma_fixpoint_certified<F: IntervalFn>(
    f: F,
    base: IntervalView,
    tb: IntervalView,
    y: IntervalView,
    h: (int, int),
    rounds: nat,
)
    requires
        fixpoint_search(f, base, tb, y, h, rounds) is Some,
    ensures
        certified(f, base, tb, h, fixpoint_search(f, base, tb, y, h, rounds)->0),
    decreases rounds,
{
    let next = picard_image(f, base, tb, y, h);
    if within(next, y) {
        assert(picard_image(f, base, tb, y, h) == next);
    } else {
        lemma_fixpoint_certified(f, base, tb, next, h, (rounds - 1) as nat);
    }
}

/// The search over start boxes returns a certified box, or else the start
/// box of the radius doubled once for each try.
pub proof fn lemma_widening_certified_or_widest<F: IntervalFn>(
    f: F,
    base: IntervalView,
    tb: IntervalView,
    h: (int, int),
    radius: (int, int),
    tries: nat,
)
    ensures
        certified(f, base, tb, h, widening_search(f, base, tb, h, radius, tries))
            || widening_search(f, base, tb, h, radius, tries) == start_box(
            base,
            h,
            doubled(radius, tries),
        ),
    decreases tries,
{
    if tries > 0 {
        let y0 = start_box(base, h, radius);
        match fixpoint_search(f, base, tb, y0, h, PICARD_ROUNDS as nat) {
            Some(r) => {
                lemma_fixpoint_certified(f, base, tb, y0, h, PICARD_ROUNDS as nat);
            },
            None => {
                lemma_widening_certified_or_widest(f, base, tb, h, double(radius), (tries - 1) as nat);
            },
        }
    }
}

/// Every step ends on a box that the Picard operator over the step maps
/// into the box it came from, or, when no such box is found, on the widest
/// start box tried: the enclosure widened by `h` times the first radius
/// doubled once per widening.
pub proof fn lemma_step_certified_or_widest<F: IntervalFn>(
    f: F,
    t: (int, int),
    base: IntervalView,
    h: (int, int),
)
    ensures
        certified(f, base, time_box(t, h), h, enclosure_step(f, t, base, h))
            || enclosure_step(f, t, base, h) == start_box(
            base,
            h,
            doubled(first_radius(f, t, base), WIDENINGS as nat),
        ),
{
    lemma_widening_certified_or_widest(
        f,
        base,
        time_box(t, h),
        h,
        first_radius(f, t, base),
        WIDENINGS as nat,
    );
}

/// The least element of a sequence of fractions with positive denominators
/// is one of its elements and is `<=` each of them.
proof fn lemma_seq_min_bounds(v: Seq<(int, int)>)
    requires
        v.len() > 0,
        forall|k: int| 0 <= k < v.len() ==> (#[trigger] v[k]).1 > 0,
    ensures
        exists|k: int| 0 <= k < v.len() && v[k] == seq_min(v),
        forall|k: int| 0 <= k < v.len() ==> q_le(seq_min(v), #[trigger] v[k]),
    decreases v.len(),
{
    if v.len() == 1 {
        assert(v[0] == seq_min(v));
        assert(q_le(v[0], v[0]));
    } else {
        let front = v.drop_last();
        lemma_seq_min_bounds(front);
        let m = seq_min(front);
        let j = choose|j: int| 0 <= j < front.len() && front[j] == m;
        assert(v[j] == m);
        assert(v.last() == v[v.len() - 1]);
        assert(seq_min(v) == q_min(m, v.last()));
        if q_le(m, v.last()) {
            assert(seq_min(v) == v[j]);
        } else {
            assert(seq_min(v) == v[v.len() - 1]);
        }
        assert forall|k: int| 0 <= k < v.len() implies q_le(seq_min(v), #[trigger] v[k]) by {
            if k < v.len() - 1 {
                assert(front[k] == v[k]);
                assert(q_le(m, front[k]));
                if !q_le(m, v.last()) {
                    assert(q_le(v.last(), m)) by (nonlinear_arith)
                        requires
                            !(m.0 * v.last().1 <= v.last().0 * m.1),
                    ;
                    lemma_q_le_trans(v.last(), m, v[k]);
                }
            } else {
                if !q_le(m, v.last()) {
                    assert(q_le(v.last(), v.last()));
                }
            }
        }
    }
}

/// The greatest element of a sequence of fractions with positive
/// denominators is one of its elements and each of them is `<=` it.
proof fn lemma_seq_max_bounds(v: Seq<(int, int)>)
    requires
        v.len() > 0,
        forall|k: int| 0 <= k < v.len() ==> (#[trigger] v[k]).1 > 0,
    ensures
        exists|k: int| 0 <= k < v.len() && v[k] == seq_max(v),
        forall|k: int| 0 <= k < v.len() ==> q_le(#[trigger] v[k], seq_max(v)),
    decreases v.len(),
{
    if v.len() == 1 {
        assert(v[0] == seq_max(v));
        assert(q_le(v[0], v[0]));
    } else {
        let front = v.drop_last();
        lemma_seq_max_bounds(front);
        let m = seq_max(front);
        let j = choose|j: int| 0 <= j < front.len() && front[j] == m;
        assert(v[j] == m);
        assert(v.last() == v[v.len() - 1]);
        assert(seq_max(v) == q_max(m, v.last()));
        if q_le(v.last(), m) {
            assert(seq_max(v) == v[j]);
        } else {
            assert(seq_max(v) == v[v.len() - 1]);
        }
        assert forall|k: int| 0 <= k < v.len() implies q_le(#[trigger] v[k], seq_max(v)) by {
            if k < v.len() - 1 {
                assert(front[k] == v[k]);
                assert(q_le(front[k], m));
                if !q_le(v.last(), m) {
                    assert(q_le(m, v.last())) by (nonlinear_arith)
                        requires
                            !(v.last().0 * m.1 <= m.0 * v.last().1),
                    ;
                    lemma_q_le_trans(v[k], m, v.last());
                }
            } else {
                if !q_le(v.last(), m) {
                    assert(q_le(v.last(), v.last()));
                }
            }
        }
    }
}

/// The range that a Picard round uses bounds `f` at each of the four
/// corners `(t, y)` of the box, `t` an end of `tb` and `y` an end of `y`,
/// and each of its ends is the value of `f` at one of these corners (when
/// the values of `f` there are fractions with positive denominators).
pub proof fn lemma_corner_range_bounds_f<F: IntervalFn>(f: F, tb: IntervalView, y: IntervalView)
    requires
        f.value(tb.0, y.0).1 > 0,
        f.value(tb.0, y.1).1 > 0,
        f.value(tb.1, y.0).1 > 0,
        f.value(tb.1, y.1).1 > 0,
    ensures
        forall|tc: (int, int), yc: (int, int)|
            (tc == tb.0 || tc == tb.1) && (yc == y.0 || yc == y.1) ==> q_le(
                corner_range(f, tb, y).0,
                #[trigger] f.value(tc, yc),
            ) && q_le(f.value(tc, yc), corner_range(f, tb, y).1),
        exists|tc: (int, int), yc: (int, int)|
            (tc == tb.0 || tc == tb.1) && (yc == y.0 || yc == y.1) && corner_range(f, tb, y).0
                == #[trigger] f.value(tc, yc),
        exists|tc: (int, int), yc: (int, int)|
            (tc == tb.0 || tc == tb.1) && (yc == y.0 || yc == y.1) && corner_range(f, tb, y).1
                == #[trigger] f.value(tc, yc),
{
    let v = corner_values(f, tb, y);
    let c = corners(tb, y);
    assert(v.len() == 4);
    assert(v[0] == f.value(tb.0, y.0));
    assert(v[1] == f.value(tb.0, y.1));
    assert(v[2] == f.value(tb.1, y.0));
    assert(v[3] == f.value(tb.1, y.1));
    lemma_seq_min_bounds(v);
    lemma_seq_max_bounds(v);
    assert forall|tc: (int, int), yc: (int, int)|
        (tc == tb.0 || tc == tb.1) && (yc == y.0 || yc == y.1) implies q_le(
        corner_range(f, tb, y).0,
        #[trigger] f.value(tc, yc),
    ) && q_le(f.value(tc, yc), corner_range(f, tb, y).1) by {
        if tc == tb.0 && yc == y.0 {
            assert(q_le(seq_min(v), v[0]) && q_le(v[0], seq_max(v)));
        } else if tc == tb.0 {
            assert(q_le(seq_min(v), v[1]) && q_le(v[1], seq_max(v)));
        } else if yc == y.0 {
            assert(q_le(seq_min(v), v[2]) && q_le(v[2], seq_max(v)));
        } else {
            assert(q_le(seq_min(v), v[3]) && q_le(v[3], seq_max(v)));
        }
    }
    let a = choose|k: int| 0 <= k < v.len() && v[k] == seq_min(v);
    let b = choose|k: int| 0 <= k < v.len() && v[k] == seq_max(v);
    assert(c[a].0 == tb.0 || c[a].0 == tb.1);
    assert(c[a].1 == y.0 || c[a].1 == y.1);
    assert(v[a] == f.value(c[a].0, c[a].1));
    assert(c[b].0 == tb.0 || c[b].0 == tb.1);
    assert(c[b].1 == y.0 || c[b].1 == y.1);
    assert(v[b] == f.value(c[b].0, c[b].1));
}

} // verus!
