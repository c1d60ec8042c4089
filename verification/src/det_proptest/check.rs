//! The property-test runner, with shrinking toward the first failing value
//! of the strategy's index space.
use vstd::prelude::*;
use crate::det_proptest::rng::{seed_state, Xorshift64};
use crate::det_proptest::strategy::{Seed, Strategy};

verus! {

/// A value that falsifies a property.
///
/// `original` is the first generated value that failed; `minimal` is the
/// value that shrinking reached.
#[derive(Clone, Debug, PartialEq, Eq)]
pub struct CounterExample<T> where T: Clone {
    /// The first generated value that falsified the property.
    pub original: T,
    /// The falsifying value reached by shrinking.
    pub minimal: T,
}

/// The outcome of a run: `Ok(())` when the property held for every
/// generated value, else the counterexample.
pub type TestResult<T> = Result<(), CounterExample<T>>;

/// The generator state after `k` draws of `s` from `state`.
pub open spec fn state_after<S: Strategy>(s: S, state: u64, k: nat) -> u64
    decreases k,
{
    if k == 0 {
        state
    } else {
        s.generate_spec(state_after(s, state, (k - 1) as nat)).1
    }
}

/// The `k`-th value (from 0) that `s` draws from `state`.
pub open spec fn drawn<S: Strategy>(s: S, state: u64, k: nat) -> S::Value {
    s.generate_spec(state_after(s, state, k)).0
}

/// The property can return `b` on `v`.
pub open spec fn answers<V, P: Fn(&V) -> bool>(p: P, v: V, b: bool) -> bool {
    call_ensures(p, (&v,), b)
}

/// The property gives one answer per value.
pub open spec fn deterministic<V, P: Fn(&V) -> bool>(p: P) -> bool {
    forall|v: V, b1: bool, b2: bool| answers(p, v, b1) && answers(p, v, b2) ==> b1 == b2
}

/// The property held at every index of `[lo, f)`.
pub open spec fn passes_below<S: Strategy, P: Fn(&S::Value) -> bool>(
    s: S,
    p: P,
    lo: u64,
    f: u64,
) -> bool {
    forall|i: u64| lo <= i < f ==> answers(p, #[trigger] s.index_spec(i)->0, true)
}

/// The property failed at index `i`.
pub open spec fn fails_at<S: Strategy, P: Fn(&S::Value) -> bool>(s: S, p: P, i: u64) -> bool {
    answers(p, s.index_spec(i)->0, false)
}

/// A strategy with an index space `[lo, hi)` has a value at each of its
/// indices, and the space is not empty.
pub open spec fn shrinkable<S: Strategy>(s: S) -> bool {
    match s.bounds_spec() {
        Some((lo, hi)) => lo < hi && forall|i: u64| lo <= i < hi ==> (#[trigger] s.index_spec(i)) is Some,
        None => true,
    }
}

/// `ce` is what shrinking gives for a failure at `first`: without an index
/// space, `first` itself; with an index space `[lo, hi)`, the value at an
/// index `m` that either fails and lies at or below the first index `f`
/// where the property failed in a scan from `lo`, or is `lo` when the
/// scan found no failure.
pub open spec fn shrunk<S: Strategy, P: Fn(&S::Value) -> bool>(
    s: S,
    p: P,
    first: S::Value,
    ce: CounterExample<S::Value>,
) -> bool where S::Value: Clone {
    match s.bounds_spec() {
        None => cloned(first, ce.original) && ce.minimal == first,
        Some((lo, hi)) => ce.original == first && exists|m: u64|
            lo <= m < hi && s.index_spec(m) == Some(ce.minimal) && ((exists|f: u64|
                lo <= f < hi && passes_below(s, p, lo, f) && fails_at(s, p, f) && lo <= m <= f
                    && fails_at(s, p, m)) || (passes_below(s, p, lo, hi) && m == lo)),
    }
}

/// What a run gives: `Ok(())` when the property returned `true` on each of
/// the first `iterations` values drawn from the seed; otherwise the
/// counterexample shrunk from the first value on which it returned `false`,
/// it having returned `true` on all earlier ones.
pub open spec fn check_outcome<S: Strategy, P: Fn(&S::Value) -> bool>(
    iterations: nat,
    seed: Seed,
    s: S,
    p: P,
    r: TestResult<S::Value>,
) -> bool where S::Value: Clone {
    let st = seed_state(seed.0);
    match r {
        Ok(()) => forall|k: nat| k < iterations ==> answers(p, #[trigger] drawn(s, st, k), true),
        Err(ce) => exists|k: nat|
            k < iterations && (forall|j: nat| j < k ==> answers(p, #[trigger] drawn(s, st, j), true))
                && answers(p, drawn(s, st, k), false) && shrunk(s, p, drawn(s, st, k), ce),
    }
}

/// Runs `property` on `iterations` values drawn from `strategy` with
/// `seed`. At the first value on which it returns `false`, shrinks it (see
/// `shrunk`) and returns the counterexample. The same seed gives the same
/// values and, for a property that gives one answer per value, the same
/// outcome.
pub fn check<S, P>(iterations: usize, seed: Seed, strategy: S, property: P) -> (r: TestResult<
    S::Value,
>) where S: Strategy, S::Value: Clone, P: Fn(&S::Value) -> bool
    requires
        forall|v: S::Value| call_requires(property, (&v,)),
        shrinkable(strategy),
    ensures
        check_outcome(iterations as nat, seed, strategy, property, r),
{
    let ghost st = seed_state(seed.0);
    let mut rng = Xorshift64::new(seed.0);
    let mut i: usize = 0;
    while i < iterations
        invariant
            i <= iterations,
            st == seed_state(seed.0),
            rng@ == state_after(strategy, st, i as nat),
            forall|j: nat| j < i ==> answers(property, #[trigger] drawn(strategy, st, j), true),
            forall|v: S::Value| call_requires(property, (&v,)),
            shrinkable(strategy),
        decreases iterations - i,
    {
        let v = strategy.generate(&mut rng);
        assert(v == drawn(strategy, st, i as nat));
        if !property(&v) {
            let ce = shrink(strategy, property, v);
            assert(answers(property, drawn(strategy, st, i as nat), false));
            let ghost k = i as nat;
            assert(k < iterations && (forall|j: nat| j < k ==> answers(
                property,
                #[trigger] drawn(strategy, st, j),
                true,
            )) && answers(property, drawn(strategy, st, k), false) && shrunk(
                strategy,
                property,
                drawn(strategy, st, k),
                ce,
            ));
            return Err(ce);
        }
        assert(answers(property, drawn(strategy, st, i as nat), true));
        i = i + 1;
    }
    Ok(())
}

/// Shrinks a failure at `first_failure`: scans the index space from its low
/// end for the first index where the property fails, then bisects between
/// the low end and that index for the least failing index.
fn shrink<S, P>(strategy: S, property: P, first_failure: S::Value) -> (ce: CounterExample<
    S::Value,
>) where S: Strategy, S::Value: Clone, P: Fn(&S::Value) -> bool
    requires
        forall|v: S::Value| call_requires(property, (&v,)),
        shrinkable(strategy),
    ensures
        shrunk(strategy, property, first_failure, ce),
{
    let bounds = match strategy.shrink_bounds() {
        Some(b) => b,
        None => {
            return CounterExample { original: first_failure.clone(), minimal: first_failure };
        },
    };
    let (lo, hi) = bounds;
    let mut fail_idx = lo;
    let mut found = false;
    let mut idx = lo;
    while idx < hi
        invariant_except_break
            !found,
            fail_idx == lo,
        invariant
            lo <= idx <= hi,
            strategy.bounds_spec() == Some((lo, hi)),
            shrinkable(strategy),
            passes_below(strategy, property, lo, idx),
            forall|v: S::Value| call_requires(property, (&v,)),
        ensures
            found ==> lo <= fail_idx < hi && passes_below(strategy, property, lo, fail_idx)
                && fails_at(strategy, property, fail_idx),
            !found ==> passes_below(strategy, property, lo, hi) && fail_idx == lo,
        decreases hi - idx,
    {
        assert(strategy.index_spec(idx) is Some);
        let candidate = strategy.at_index(idx).unwrap();
        if !property(&candidate) {
            fail_idx = idx;
            found = true;
            break;
        }
        proof {
            assert forall|i: u64| lo <= i < idx + 1 implies answers(
                property,
                #[trigger] strategy.index_spec(i)->0,
                true,
            ) by {
                if i < idx {
                    assert(passes_below(strategy, property, lo, idx));
                }
            }
        }
        idx = idx + 1;
    }
    let mut left = lo;
    let mut right = fail_idx;
    let mut minimal_idx = fail_idx;
    while left < right
        invariant
            lo <= left <= right == minimal_idx <= fail_idx,
            fail_idx < hi || fail_idx == lo,
            lo < hi,
            strategy.bounds_spec() == Some((lo, hi)),
            shrinkable(strategy),
            minimal_idx == fail_idx || fails_at(strategy, property, minimal_idx),
            forall|v: S::Value| call_requires(property, (&v,)),
        decreases right - left,
    {
        let mid = left + (right - left) / 2;
        assert(strategy.index_spec(mid) is Some);
        let candidate = strategy.at_index(mid).unwrap();
        if !property(&candidate) {
            minimal_idx = mid;
            right = mid;
        } else {
            left = mid + 1;
        }
    }
    assert(strategy.index_spec(minimal_idx) is Some);
    let minimal = strategy.at_index(minimal_idx).unwrap();
    let ce = CounterExample { original: first_failure, minimal };
    proof {
        if found {
            assert(lo <= fail_idx < hi && passes_below(strategy, property, lo, fail_idx) && fails_at(
                strategy,
                property,
                fail_idx,
            ) && lo <= minimal_idx <= fail_idx && fails_at(strategy, property, minimal_idx));
        } else {
            assert(minimal_idx == lo);
        }
    }
    ce
}

/// With a property that gives one answer per value, shrinking over an index
/// space reaches the first failing index: the value there falsifies the
/// property and every value at a lower index of the space satisfies it.
pub proof fn lemma_shrink_finds_first_failure<S, P>(
    s: S,
    p: P,
    first: S::Value,
    ce: CounterExample<S::Value>,
    f: u64,
) where S: Strategy, S::Value: Clone, P: Fn(&S::Value) -> bool
    requires
        deterministic(p),
        shrunk(s, p, first, ce),
        s.bounds_spec() matches Some((lo, hi)) && lo <= f < hi && passes_below(s, p, lo, f),
        fails_at(s, p, f),
    ensures
        ce.minimal == s.index_spec(f)->0,
{
    let (lo, hi) = s.bounds_spec()->0;
    let m = choose|m: u64|
        lo <= m < hi && s.index_spec(m) == Some(ce.minimal) && ((exists|f2: u64|
            lo <= f2 < hi && passes_below(s, p, lo, f2) && fails_at(s, p, f2) && lo <= m <= f2
                && fails_at(s, p, m)) || (passes_below(s, p, lo, hi) && m == lo));
    if exists|f2: u64|
        lo <= f2 < hi && passes_below(s, p, lo, f2) && fails_at(s, p, f2) && lo <= m <= f2
            && fails_at(s, p, m) {
        let f2 = choose|f2: u64|
            lo <= f2 < hi && passes_below(s, p, lo, f2) && fails_at(s, p, f2) && lo <= m <= f2
                && fails_at(s, p, m);
        if m < f {
            assert(answers(p, s.index_spec(m)->0, true));
        }
        if f2 < f {
            assert(answers(p, s.index_spec(f2)->0, true));
        }
        if f < f2 {
            assert(answers(p, s.index_spec(f)->0, true));
        }
    } else {
        assert(answers(p, s.index_spec(f)->0, true));
    }
}

/// The shrunk value over an index space is determined when the property
/// gives one answer per value.
proof fn lemma_shrunk_unique<S, P>(
    s: S,
    p: P,
    first: S::Value,
    ce1: CounterExample<S::Value>,
    ce2: CounterExample<S::Value>,
) where S: Strategy, S::Value: Clone, P: Fn(&S::Value) -> bool
    requires
        deterministic(p),
        s.bounds_spec() is Some,
        shrunk(s, p, first, ce1),
        shrunk(s, p, first, ce2),
    ensures
        ce1 == ce2,
{
    let (lo, hi) = s.bounds_spec()->0;
    if exists|f: u64| lo <= f < hi && passes_below(s, p, lo, f) && fails_at(s, p, f) {
        let f = choose|f: u64| lo <= f < hi && passes_below(s, p, lo, f) && fails_at(s, p, f);
        lemma_shrink_finds_first_failure(s, p, first, ce1, f);
        lemma_shrink_finds_first_failure(s, p, first, ce2, f);
    } else {
        let m1 = choose|m: u64|
            lo <= m < hi && s.index_spec(m) == Some(ce1.minimal) && ((exists|f2: u64|
                lo <= f2 < hi && passes_below(s, p, lo, f2) && fails_at(s, p, f2) && lo <= m <= f2
                    && fails_at(s, p, m)) || (passes_below(s, p, lo, hi) && m == lo));
        let m2 = choose|m: u64|
            lo <= m < hi && s.index_spec(m) == Some(ce2.minimal) && ((exists|f2: u64|
                lo <= f2 < hi && passes_below(s, p, lo, f2) && fails_at(s, p, f2) && lo <= m <= f2
                    && fails_at(s, p, m)) || (passes_below(s, p, lo, hi) && m == lo));
        assert(m1 == lo && m2 == lo);
    }
}

/// A run is reproducible: with a property that gives one answer per value,
/// two runs with the same iterations, seed and strategy both pass or both
/// fail at the same drawn value, and over an index space they give the same
/// counterexample.
pub proof fn lemma_check_deterministic<S, P>(
    iterations: nat,
    seed: Seed,
    s: S,
    p: P,
    r1: TestResult<S::Value>,
    r2: TestResult<S::Value>,
) where S: Strategy, S::Value: Clone, P: Fn(&S::Value) -> bool
    requires
        deterministic(p),
        check_outcome(iterations, seed, s, p, r1),
        check_outcome(iterations, seed, s, p, r2),
    ensures
        r1 is Ok <==> r2 is Ok,
        r1 is Err && r2 is Err && s.bounds_spec() is Some ==> r1 == r2,
{
    let st = seed_state(seed.0);
    if r1 is Err && r2 is Err {
        let k1 = choose|k: nat|
            k < iterations && (forall|j: nat| j < k ==> answers(p, #[trigger] drawn(s, st, j), true))
                && answers(p, drawn(s, st, k), false) && shrunk(s, p, drawn(s, st, k), r1->Err_0);
        let k2 = choose|k: nat|
            k < iterations && (forall|j: nat| j < k ==> answers(p, #[trigger] drawn(s, st, j), true))
                && answers(p, drawn(s, st, k), false) && shrunk(s, p, drawn(s, st, k), r2->Err_0);
        if k1 < k2 {
            assert(answers(p, drawn(s, st, k1), true));
        }
        if k2 < k1 {
            assert(answers(p, drawn(s, st, k2), true));
        }
        assert(k1 == k2);
        if s.bounds_spec() is Some {
            lemma_shrunk_unique(s, p, drawn(s, st, k1), r1->Err_0, r2->Err_0);
        }
    }
    if r1 is Ok && r2 is Err {
        let k2 = choose|k: nat|
            k < iterations && (forall|j: nat| j < k ==> answers(p, #[trigger] drawn(s, st, j), true))
                && answers(p, drawn(s, st, k), false) && shrunk(s, p, drawn(s, st, k), r2->Err_0);
        assert(answers(p, drawn(s, st, k2), true));
    }
    if r2 is Ok && r1 is Err {
        let k1 = choose|k: nat|
            k < iterations && (forall|j: nat| j < k ==> answers(p, #[trigger] drawn(s, st, j), true))
                && answers(p, drawn(s, st, k), false) && shrunk(s, p, drawn(s, st, k), r1->Err_0);
        assert(answers(p, drawn(s, st, k1), true));
    }
}

} // verus!
