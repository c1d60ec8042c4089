//! The step-by-step integrator.
use vstd::prelude::*;
use crate::exact_math::bigint::abs;
use crate::exact_math::interval::{Interval, IntervalView, lemma_reduced_le, q_max, q_min, reduced};
use crate::exact_math::rational::{
    Rational, in_lowest_terms, lemma_normalize_le, lemma_q_add_monotone, lemma_q_le_trans, q_add,
    q_div, q_le, q_lt, q_mul, q_sub,
};
use crate::verified_ode::picard::{
    IntervalFn, PICARD_ROUNDS, WIDENINGS, corner_values, corners, double, enclosure_step,
    first_radius, fixpoint_search, lemma_corner_range_bounds_f, picard_image, seq_max, seq_min,
    start_box, time_box, widening_search, within, corner_range,
};

verus! {

/// The time after `n` steps of size `h` from `t`.
pub open spec fn time_after(t: (int, int), h: (int, int), n: nat) -> (int, int)
    decreases n,
{
    if n == 0 {
        t
    } else {
        reduced(q_add(time_after(t, h, (n - 1) as nat), h))
    }
}

/// The enclosure after `n` steps of size `h` from time `t` and enclosure
/// `base`.
pub open spec fn enclosure_after<F: IntervalFn>(
    f: F,
    t: (int, int),
    base: IntervalView,
    h: (int, int),
    n: nat,
) -> IntervalView
    decreases n,
{
    if n == 0 {
        base
    } else {
        enclosure_step(
            f,
            time_after(t, h, (n - 1) as nat),
            enclosure_after(f, t, base, h, (n - 1) as nat),
            h,
        )
    }
}

/// A step size is accepted when it is not negative.
pub open spec fn step_ok(h: (int, int)) -> bool {
    q_le((0, 1), h)
}

/// A step that is accepted has a numerator that is not negative.
proof fn lemma_step_ok(h: (int, int))
    requires
        step_ok(h),
    ensures
        h.0 >= 0,
{
    assert(h.0 >= 0) by (nonlinear_arith)
        requires
            q_le((0, 1), h),
    ;
}

/// Scaling by a factor that is not negative keeps the order of two
/// fractions.
proof fn lemma_scale_keeps_order(h: (int, int), a: (int, int), b: (int, int))
    requires
        h.1 > 0,
        a.1 > 0,
        b.1 > 0,
        h.0 >= 0,
        q_le(a, b),
    ensures
        q_le(reduced(q_mul(h, a)), reduced(q_mul(h, b))),
        reduced(q_mul(h, a)).1 > 0,
        reduced(q_mul(h, b)).1 > 0,
{
    assert(h.1 * a.1 > 0 && h.1 * b.1 > 0) by (nonlinear_arith)
        requires
            h.1 > 0,
            a.1 > 0,
            b.1 > 0,
    ;
    assert((h.0 * a.0) * (h.1 * b.1) <= (h.0 * b.0) * (h.1 * a.1)) by (nonlinear_arith)
        requires
            h.0 >= 0,
            h.1 > 0,
            a.0 * b.1 <= b.0 * a.1,
    ;
    let x = q_mul(h, a);
    let y = q_mul(h, b);
    lemma_normalize_le(y, x);
    lemma_normalize_le(x, reduced(y));
}

/// The product of two fractions that are not negative is not negative.
proof fn lemma_product_nonneg(h: (int, int), r: (int, int))
    requires
        h.1 > 0,
        r.1 > 0,
        h.0 >= 0,
        r.0 >= 0,
    ensures
        reduced(q_mul(h, r)).1 > 0,
        reduced(q_mul(h, r)).0 >= 0,
{
    assert(h.1 * r.1 > 0 && h.0 * r.0 >= 0) by (nonlinear_arith)
        requires
            h.1 > 0,
            r.1 > 0,
            h.0 >= 0,
            r.0 >= 0,
    ;
    lemma_normalize_le(q_mul(h, r), (0, 1));
}

/// Moving the bounds of `[lo, hi]` apart by `x >= 0` keeps them ordered.
proof fn lemma_widen_ordered(lo: (int, int), hi: (int, int), x: (int, int))
    requires
        lo.1 > 0,
        hi.1 > 0,
        x.1 > 0,
        x.0 >= 0,
        q_le(lo, hi),
    ensures
        q_le(reduced(q_sub(lo, x)), reduced(q_add(hi, x))),
{
    let a = q_sub(lo, x);
    let b = q_add(hi, x);
    assert(a.1 > 0 && b.1 > 0) by (nonlinear_arith)
        requires
            a == q_sub(lo, x),
            b == q_add(hi, x),
            lo.1 > 0,
            hi.1 > 0,
            x.1 > 0,
    ;
    assert(q_le(a, lo)) by (nonlinear_arith)
        requires
            a == q_sub(lo, x),
            lo.1 > 0,
            x.1 > 0,
            x.0 >= 0,
    ;
    assert(q_le(hi, b)) by (nonlinear_arith)
        requires
            b == q_add(hi, x),
            hi.1 > 0,
            x.1 > 0,
            x.0 >= 0,
    ;
    lemma_q_le_trans(a, lo, hi);
    lemma_q_le_trans(a, hi, b);
    lemma_normalize_le(a, b);
    lemma_normalize_le(b, reduced(a));
}

/// A time does not decrease by a step that is not negative.
proof fn lemma_time_advances(t: (int, int), h: (int, int))
    requires
        t.1 > 0,
        h.1 > 0,
        h.0 >= 0,
    ensures
        q_le(t, reduced(q_add(t, h))),
{
    let s = q_add(t, h);
    assert(s.1 > 0) by (nonlinear_arith)
        requires
            s == q_add(t, h),
            t.1 > 0,
            h.1 > 0,
    ;
    assert(q_le(t, s)) by (nonlinear_arith)
        requires
            s == q_add(t, h),
            t.1 > 0,
            h.1 > 0,
            h.0 >= 0,
    ;
    lemma_normalize_le(s, t);
}

/// An integrator for `y' = f(t, y)`: the current time `t` and an enclosure
/// `[lo, hi]` of the state at `t`.
pub struct OdeSolver<F: IntervalFn> {
    f: F,
    t: Rational,
    y_box: Interval,
}

impl<F: IntervalFn> OdeSolver<F> {
    #[verifier::type_invariant]
    closed spec fn callable(self) -> bool {
        self.f.ready()
    }

    /// The right-hand side `f`.
    pub closed spec fn rhs(&self) -> F {
        self.f
    }

    /// The current time.
    pub closed spec fn time(&self) -> (int, int) {
        self.t@
    }

    /// The current enclosure of the state.
    pub closed spec fn enclosure(&self) -> IntervalView {
        self.y_box@
    }

    /// A solver for `y' = f(t, y)` with `y(t0) = y0`: the enclosure is
    /// `[y0, y0]`.
    pub fn new(f: F, t0: Rational, y0: Rational) -> (r: Self)
        requires
            f.ready(),
        ensures
            r.rhs() == f,
            r.time() == t0@,
            r.enclosure() == (y0@, y0@),
    {
        OdeSolver { f, t: t0, y_box: Interval::point(y0) }
    }

    /// The current time `t`.
    pub fn t(&self) -> (r: &Rational)
        ensures
            r@ == self.time(),
    {
        &self.t
    }

    /// The current enclosure `[lo, hi]` of the state `y(t)`.
    pub fn y_box(&self) -> (r: &Interval)
        ensures
            r@ == self.enclosure(),
    {
        &self.y_box
    }

    /// The midpoint of the current enclosure, a point estimate of `y(t)`.
    pub fn y(&self) -> (r: Rational)
        ensures
            r@ == reduced(q_div(reduced(q_add(self.enclosure().0, self.enclosure().1)), (2, 1))),
    {
        self.y_box.midpoint()
    }

    /// One Picard round `base + h · f(t_box, y_box)`, where `base` is the
    /// enclosure at the start of the step and `f` is bounded over the box by
    /// its least and greatest value at the four corners.
    fn picard_round(&self, t_box: &Interval, y_box: &Interval, h: &Rational) -> (r: Interval)
        requires
            step_ok(h@),
        ensures
            self.rhs().obeys_value_spec() ==> r@ == picard_image(
                self.rhs(),
                self.enclosure(),
                t_box@,
                y_box@,
                h@,
            ),
    {
        proof {
            use_type_invariant(self);
        }
        let ghost exact = self.f.obeys_value_spec();
        let points: [(&Rational, &Rational); 4] = [
            (t_box.lo(), y_box.lo()),
            (t_box.lo(), y_box.hi()),
            (t_box.hi(), y_box.lo()),
            (t_box.hi(), y_box.hi()),
        ];
        let ghost vals = corner_values(self.f, t_box@, y_box@);
        let ghost pts = corners(t_box@, y_box@);
        let mut f_lo = Rational::zero();
        let mut f_hi = Rational::zero();
        let mut first = true;
        let mut i: usize = 0;
        while i < 4
            invariant
                i <= 4,
                first == (i == 0),
                self.f.ready(),
                vals == corner_values(self.f, t_box@, y_box@),
                pts == corners(t_box@, y_box@),
                forall|k: int|
                    0 <= k < 4 ==> (#[trigger] points@[k]).0@ == pts[k].0 && points@[k].1@
                        == pts[k].1,
                exact == self.f.obeys_value_spec(),
                exact && i > 0 ==> f_lo@ == seq_min(vals.take(i as int)) && f_hi@ == seq_max(
                    vals.take(i as int),
                ),
                q_le(f_lo@, f_hi@),
            decreases 4 - i,
        {
            let (tc, yc) = points[i];
            let val = self.f.eval(tc, yc);
            proof {
                if exact {
                    assert(vals[i as int] == val@);
                    assert(vals.take(i + 1).last() == val@);
                }
                assert(vals.take(i + 1).drop_last() =~= vals.take(i as int));
            }
            f_lo.check_lowest_terms();
            f_hi.check_lowest_terms();
            val.check_lowest_terms();
            if first {
                f_lo = val.clone();
                f_hi = val;
                first = false;
                proof {
                    assert(vals.take(1) =~= seq![vals[0]]);
                }
            } else {
                let ghost lo0 = f_lo@;
                let ghost hi0 = f_hi@;
                if val.less_than(&f_lo) {
                    f_lo = val.clone();
                }
                if f_hi.less_than(&val) {
                    f_hi = val;
                }
                proof {
                    assert(q_le(f_lo@, lo0));
                    assert(q_le(hi0, f_hi@));
                    lemma_q_le_trans(f_lo@, lo0, hi0);
                    lemma_q_le_trans(f_lo@, hi0, f_hi@);
                }
            }
            i = i + 1;
        }
        proof {
            assert(vals.take(4) =~= vals);
        }
        let f_box = Interval::new(f_lo, f_hi);
        f_box.check_wf();
        h.check_lowest_terms();
        proof {
            assert(h@.0 >= 0) by (nonlinear_arith)
                requires
                    q_le((0, 1), h@),
            ;
            lemma_scale_keeps_order(h@, f_box@.0, f_box@.1);
        }
        // The integral of f over the step lies in h · [f_lo, f_hi].
        let integral = Interval::new(h.times(f_box.lo()), h.times(f_box.hi()));
        self.y_box.check_wf();
        integral.check_wf();
        proof {
            let b = self.y_box@;
            let g = integral@;
            lemma_q_add_monotone(b.0, g.0, b.1, g.1);
            assert(q_add(b.0, g.0).1 > 0 && q_add(b.1, g.1).1 > 0) by (nonlinear_arith)
                requires
                    b.0.1 > 0,
                    b.1.1 > 0,
                    g.0.1 > 0,
                    g.1.1 > 0,
            ;
            lemma_normalize_le(q_add(b.0, g.0), q_add(b.1, g.1));
            lemma_normalize_le(q_add(b.1, g.1), reduced(q_add(b.0, g.0)));
        }
        Interval::new(self.y_box.lo().plus(integral.lo()), self.y_box.hi().plus(integral.hi()))
    }

    /// Iterates the Picard operator from `y0_box` until an image lies within
    /// the iterate it was computed from, for at most `PICARD_ROUNDS` rounds.
    fn picard_fixpoint(&self, t_box: &Interval, y0_box: &Interval, h: &Rational) -> (r: Option<Interval>)
        requires
            step_ok(h@),
        ensures
            self.rhs().obeys_value_spec() ==> match r {
                Some(b) => fixpoint_search(
                    self.rhs(),
                    self.enclosure(),
                    t_box@,
                    y0_box@,
                    h@,
                    PICARD_ROUNDS as nat,
                ) == Some(b@),
                None => fixpoint_search(
                    self.rhs(),
                    self.enclosure(),
                    t_box@,
                    y0_box@,
                    h@,
                    PICARD_ROUNDS as nat,
                ) is None,
            },
    {
        let ghost goal = fixpoint_search(self.rhs(), self.enclosure(), t_box@, y0_box@, h@, PICARD_ROUNDS as nat);
        let mut y_prev = y0_box.clone();
        let mut k: u64 = 0;
        while k < PICARD_ROUNDS
            invariant
                k <= PICARD_ROUNDS,
                step_ok(h@),
                goal == fixpoint_search(self.rhs(), self.enclosure(), t_box@, y0_box@, h@, PICARD_ROUNDS as nat),
                self.rhs().obeys_value_spec() ==> fixpoint_search(
                    self.rhs(),
                    self.enclosure(),
                    t_box@,
                    y_prev@,
                    h@,
                    (PICARD_ROUNDS - k) as nat,
                ) == goal,
            decreases PICARD_ROUNDS - k,
        {
            let y_next = self.picard_round(t_box, &y_prev, h);
            if y_prev.contains_interval(&y_next) {
                return Some(y_next);
            }
            y_prev = y_next;
            k = k + 1;
        }
        None
    }

    /// Runs the Picard iteration from start boxes of growing radius around
    /// the current enclosure, and returns the first fixpoint found, or the
    /// widest start box when none is.
    fn tightened_step(&self, h: &Rational) -> (r: Interval)
        requires
            step_ok(h@),
        ensures
            self.rhs().obeys_value_spec() ==> r@ == enclosure_step(
                self.rhs(),
                self.time(),
                self.enclosure(),
                h@,
            ),
    {
        proof {
            use_type_invariant(self);
        }
        let ghost f = self.rhs();
        let ghost base = self.enclosure();
        h.check_lowest_terms();
        self.t.check_lowest_terms();
        self.y_box.check_wf();
        proof {
            lemma_step_ok(h@);
            lemma_time_advances(self.t@, h@);
        }
        let t_box = Interval::new(self.t.clone(), self.t.plus(h));
        let ghost tb = t_box@;
        assert(tb == time_box(self.time(), h@));
        // A first radius from the slope at the current state.
        let slope = self.f.eval(&self.t, self.y_box.lo());
        slope.check_lowest_terms();
        let magnitude = if slope.is_negative() {
            slope.negated()
        } else {
            slope
        };
        let radius0 = magnitude.plus(&Rational::one());
        proof {
            let m = magnitude@;
            if f.obeys_value_spec() {
                assert(m == (abs(f.value(self.time(), base.0).0) as int, f.value(self.time(), base.0).1));
            }
            assert(q_add(m, (1, 1)).1 > 0 && q_add(m, (1, 1)).0 >= 0) by (nonlinear_arith)
                requires
                    m.1 > 0,
                    m.0 >= 0,
            ;
            lemma_normalize_le(q_add(m, (1, 1)), (0, 1));
        }
        let mut radius = radius0;
        let mut k: u64 = 0;
        while k < WIDENINGS
            invariant
                k <= WIDENINGS,
                step_ok(h@),
                h@.0 >= 0,
                h@.1 > 0,
                self.f.ready(),
                f == self.rhs(),
                base == self.enclosure(),
                tb == t_box@,
                radius@.0 >= 0,
                radius@.1 > 0,
                q_le(base.0, base.1),
                base.0.1 > 0,
                base.1.1 > 0,
                f.obeys_value_spec() ==> widening_search(f, base, tb, h@, radius@, (WIDENINGS - k) as nat) == enclosure_step(
                    f,
                    self.time(),
                    base,
                    h@,
                ),
            decreases WIDENINGS - k,
        {
            let reach = h.times(&radius);
            proof {
                lemma_product_nonneg(h@, radius@);
                lemma_widen_ordered(base.0, base.1, reach@);
            }
            let y0_box = Interval::new(self.y_box.lo().minus(&reach), self.y_box.hi().plus(&reach));
            assert(y0_box@ == start_box(base, h@, radius@));
            if let Some(fix) = self.picard_fixpoint(&t_box, &y0_box, h) {
                return fix;
            }
            let doubled = radius.plus(&radius);
            proof {
                let r = radius@;
                assert(q_add(r, r).1 > 0 && q_add(r, r).0 >= 0) by (nonlinear_arith)
                    requires
                        r.1 > 0,
                        r.0 >= 0,
                ;
                lemma_normalize_le(q_add(r, r), (0, 1));
                assert(doubled@ == double(r));
            }
            radius = doubled;
            k = k + 1;
        }
        // No fixpoint was found: the widest start box tried.
        let reach = h.times(&radius);
        proof {
            lemma_product_nonneg(h@, radius@);
            lemma_widen_ordered(base.0, base.1, reach@);
        }
        Interval::new(self.y_box.lo().minus(&reach), self.y_box.hi().plus(&reach))
    }

    /// The a priori enclosure of the state at `t + h`: the box that one step
    /// of size `h` would move to, without moving. The step must not be
    /// negative.
    pub fn a_priori(&self, h: &Rational) -> (r: Interval)
        requires
            step_ok(h@),
        ensures
            self.rhs().obeys_value_spec() ==> r@ == enclosure_step(
                self.rhs(),
                self.time(),
                self.enclosure(),
                h@,
            ),
    {
        self.tightened_step(h)
    }

    /// One step of size `h` (not negative): the time moves to `t + h` and the
    /// enclosure to the box that the Picard search gives; returns its bounds
    /// `(lo, hi)`.
    pub fn step(&mut self, h: &Rational) -> (r: (Rational, Rational))
        requires
            step_ok(h@),
        ensures
            final(self).rhs() == old(self).rhs(),
            final(self).time() == reduced(q_add(old(self).time(), h@)),
            old(self).rhs().obeys_value_spec() ==> final(self).enclosure() == enclosure_step(
                old(self).rhs(),
                old(self).time(),
                old(self).enclosure(),
                h@,
            ),
            r.0@ == final(self).enclosure().0,
            r.1@ == final(self).enclosure().1,
            q_le(r.0@, r.1@),
    {
        proof {
            use_type_invariant(&*self);
        }
        let result = self.tightened_step(h);
        self.t = self.t.plus(h);
        self.y_box = result.clone();
        result.check_wf();
        (result.lo().clone(), result.hi().clone())
    }

    /// Runs `steps` steps of size `h` (not negative) and returns, for each,
    /// the time reached and the bounds of the enclosure there.
    pub fn solve(&mut self, steps: usize, h: &Rational) -> (r: Vec<(Rational, Rational, Rational)>)
        requires
            step_ok(h@),
        ensures
            r@.len() == steps,
            final(self).rhs() == old(self).rhs(),
            final(self).time() == time_after(old(self).time(), h@, steps as nat),
            forall|i: int|
                0 <= i < steps ==> (#[trigger] r@[i]).0@ == time_after(
                    old(self).time(),
                    h@,
                    (i + 1) as nat,
                ) && q_le(r@[i].1@, r@[i].2@),
            old(self).rhs().obeys_value_spec() ==> {
                &&& final(self).enclosure() == enclosure_after(
                    old(self).rhs(),
                    old(self).time(),
                    old(self).enclosure(),
                    h@,
                    steps as nat,
                )
                &&& forall|i: int|
                    0 <= i < steps ==> ((#[trigger] r@[i]).1@, r@[i].2@) == enclosure_after(
                        old(self).rhs(),
                        old(self).time(),
                        old(self).enclosure(),
                        h@,
                        (i + 1) as nat,
                    )
            },
    {
        let ghost f = self.rhs();
        let ghost t0 = self.time();
        let ghost b0 = self.enclosure();
        let mut out: Vec<(Rational, Rational, Rational)> = Vec::with_capacity(steps);
        let mut k: usize = 0;
        while k < steps
            invariant
                k <= steps,
                step_ok(h@),
                out@.len() == k,
                self.rhs() == f,
                self.time() == time_after(t0, h@, k as nat),
                f.obeys_value_spec() ==> self.enclosure() == enclosure_after(f, t0, b0, h@, k as nat),
                forall|i: int|
                    0 <= i < k ==> (#[trigger] out@[i]).0@ == time_after(t0, h@, (i + 1) as nat)
                        && q_le(out@[i].1@, out@[i].2@),
                f.obeys_value_spec() ==> forall|i: int|
                    0 <= i < k ==> ((#[trigger] out@[i]).1@, out@[i].2@) == enclosure_after(
                        f,
                        t0,
                        b0,
                        h@,
                        (i + 1) as nat,
                    ),
            decreases steps - k,
        {
            let (lo, hi) = self.step(h);
            out.push((self.t.clone(), lo, hi));
            k = k + 1;
        }
        out
    }
}

/// Adding `h` times a value that lies in `[lo, hi]` to `b` lands between
/// `b + h·lo` and `b + h·hi`, for `h >= 0`.
proof fn lemma_scaled_step_between(b: (int, int), h: (int, int), lo: (int, int), x: (int, int), hi: (int, int))
    requires
        b.1 > 0,
        h.1 > 0,
        h.0 >= 0,
        lo.1 > 0,
        x.1 > 0,
        hi.1 > 0,
        q_le(lo, x),
        q_le(x, hi),
    ensures
        q_le(reduced(q_add(b, reduced(q_mul(h, lo)))), reduced(q_add(b, reduced(q_mul(h, x))))),
        q_le(reduced(q_add(b, reduced(q_mul(h, x)))), reduced(q_add(b, reduced(q_mul(h, hi))))),
{
    lemma_scale_keeps_order(h, lo, x);
    lemma_scale_keeps_order(h, x, hi);
    let sl = reduced(q_mul(h, lo));
    let sx = reduced(q_mul(h, x));
    let sh = reduced(q_mul(h, hi));
    assert(q_le(b, b));
    lemma_q_add_monotone(b, sl, b, sx);
    lemma_q_add_monotone(b, sx, b, sh);
    assert(q_add(b, sl).1 > 0 && q_add(b, sx).1 > 0 && q_add(b, sh).1 > 0) by (nonlinear_arith)
        requires
            b.1 > 0,
            sl.1 > 0,
            sx.1 > 0,
            sh.1 > 0,
    ;
    lemma_reduced_le(q_add(b, sl), q_add(b, sx));
    lemma_reduced_le(q_add(b, sx), q_add(b, sh));
}

/// A Picard round encloses the Euler steps from the enclosure through every
/// corner of the box: for `h >= 0` and each corner `(t, y)` of `tb × y`
/// (`t` an end of `tb`, `y` an end of `y`), the image's lower end is at most
/// `base.lo + h·f(t, y)` and its upper end at least `base.hi + h·f(t, y)`.
pub proof fn lemma_picard_image_encloses_corners<F: IntervalFn>(
    f: F,
    base: IntervalView,
    tb: IntervalView,
    y: IntervalView,
    h: (int, int),
)
    requires
        step_ok(h),
        h.1 > 0,
        base.0.1 > 0,
        base.1.1 > 0,
        f.value(tb.0, y.0).1 > 0,
        f.value(tb.0, y.1).1 > 0,
        f.value(tb.1, y.0).1 > 0,
        f.value(tb.1, y.1).1 > 0,
    ensures
        forall|tc: (int, int), yc: (int, int)|
            (tc == tb.0 || tc == tb.1) && (yc == y.0 || yc == y.1) ==> q_le(
                picard_image(f, base, tb, y, h).0,
                reduced(q_add(base.0, reduced(q_mul(h, #[trigger] f.value(tc, yc))))),
            ) && q_le(
                reduced(q_add(base.1, reduced(q_mul(h, f.value(tc, yc))))),
                picard_image(f, base, tb, y, h).1,
            ),
{
    lemma_step_ok(h);
    lemma_corner_range_bounds_f(f, tb, y);
    let r = corner_range(f, tb, y);
    let (a0, a1) = choose|tc: (int, int), yc: (int, int)|
        (tc == tb.0 || tc == tb.1) && (yc == y.0 || yc == y.1) && r.0 == #[trigger] f.value(tc, yc);
    let (b0, b1) = choose|tc: (int, int), yc: (int, int)|
        (tc == tb.0 || tc == tb.1) && (yc == y.0 || yc == y.1) && r.1 == #[trigger] f.value(tc, yc);
    assert(r.0.1 > 0);
    assert(r.1.1 > 0);
    assert forall|tc: (int, int), yc: (int, int)|
        (tc == tb.0 || tc == tb.1) && (yc == y.0 || yc == y.1) implies q_le(
        picard_image(f, base, tb, y, h).0,
        reduced(q_add(base.0, reduced(q_mul(h, #[trigger] f.value(tc, yc))))),
    ) && q_le(
        reduced(q_add(base.1, reduced(q_mul(h, f.value(tc, yc))))),
        picard_image(f, base, tb, y, h).1,
    ) by {
        let x = f.value(tc, yc);
        assert(x.1 > 0);
        lemma_scaled_step_between(base.0, h, r.0, x, r.1);
        lemma_scaled_step_between(base.1, h, r.0, x, r.1);
    }
}

} // verus!
