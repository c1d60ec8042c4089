//! The step-based simulation engine.
use vstd::prelude::*;
use std::collections::BTreeMap;
use crate::text::chars_of;
use vstd::std_specs::iter::IteratorSpec;

verus! {

broadcast use vstd::std_specs::btree::group_btree_axioms;

/// The identifier of an entity: assigned in increasing order from zero and
/// never reused within a simulation.
pub type EntityId = u64;

/// A system: an update of the entity map, run on every step.
pub trait SystemFn<S> {
    /// The system can run on every entity map.
    spec fn ready(&self) -> bool;

    /// Running the system on the borrow `m` of the entity map can leave
    /// `*final(m)` in it.
    spec fn effect(&self, m: &mut BTreeMap<EntityId, S>) -> bool;

    /// Runs the system on `entities`.
    fn run(&self, entities: &mut BTreeMap<EntityId, S>)
        requires
            self.ready(),
        ensures
            exists|m: &mut BTreeMap<EntityId, S>|
                *m == *old(entities) && *final(m) == *final(entities) && self.effect(m),
    ;
}

/// A system made of a closure.
pub struct ClosureSystem<F> {
    f: F,
}

impl<F> ClosureSystem<F> {
    /// The closure that the system runs.
    pub closed spec fn closure(&self) -> F {
        self.f
    }
}

impl<S, F: Fn(&mut BTreeMap<EntityId, S>)> SystemFn<S> for ClosureSystem<F> {
    /// The closure accepts every entity map.
    open spec fn ready(&self) -> bool {
        forall|m: &mut BTreeMap<EntityId, S>| call_requires(self.closure(), (m,))
    }

    /// A call of the closure on `m` can end as `m` ends.
    open spec fn effect(&self, m: &mut BTreeMap<EntityId, S>) -> bool {
        call_ensures(self.closure(), (m,), ())
    }

    fn run(&self, entities: &mut BTreeMap<EntityId, S>)
        ensures
            exists|m: &mut BTreeMap<EntityId, S>|
                *m == *old(entities) && *final(m) == *final(entities) && #[trigger] call_ensures(
                    self.closure(),
                    (m,),
                    (),
                ) && self.effect(m),
    {
        assert(self.closure() == self.f);
        (self.f)(entities);
        proof {
            assert(exists|m: &mut BTreeMap<EntityId, S>|
                *m == *old(entities) && *final(m) == *final(entities) && #[trigger] call_ensures(
                    self.f,
                    (m,),
                    (),
                ));
            let m = choose|m: &mut BTreeMap<EntityId, S>|
                *m == *old(entities) && *final(m) == *final(entities) && #[trigger] call_ensures(
                    self.f,
                    (m,),
                    (),
                );
            assert(self.effect(m));
        }
    }
}

/// `a` comes strictly before `b` in lexicographic order of characters (the
/// order of `String`, whose UTF-8 bytes compare as their characters do).
pub open spec fn name_lt(a: Seq<char>, b: Seq<char>) -> bool
    decreases a.len(),
{
    if a.len() == 0 {
        b.len() > 0
    } else if b.len() == 0 {
        false
    } else if a[0] != b[0] {
        (a[0] as int) < (b[0] as int)
    } else {
        name_lt(a.drop_first(), b.drop_first())
    }
}

/// Finds the entry of a registered system.
fn find_system<S>(systems: &Vec<(String, Box<dyn SystemFn<S>>)>, name: &Vec<char>) -> (r: (usize, bool))
    requires
        strictly_sorted(systems@.map_values(|e: (String, Box<dyn SystemFn<S>>)| e.0@)),
    ensures
        r.0 <= systems@.len(),
        forall|k: int| 0 <= k < r.0 ==> name_lt(#[trigger] systems@[k].0@, name@),
        r.1 ==> r.0 < systems@.len() && systems@[r.0 as int].0@ == name@,
        !r.1 ==> r.0 < systems@.len() ==> name_lt(name@, systems@[r.0 as int].0@),
{
    let ghost names = systems@.map_values(|e: (String, Box<dyn SystemFn<S>>)| e.0@);
    let mut i: usize = 0;
    while i < systems.len()
        invariant
            i <= systems@.len(),
            names == systems@.map_values(|e: (String, Box<dyn SystemFn<S>>)| e.0@),
            forall|k: int| 0 <= k < i ==> name_lt(#[trigger] systems@[k].0@, name@),
        decreases systems@.len() - i,
    {
        let cs = chars_of(systems[i].0.as_str());
        if !names_lt(&cs, name) {
            proof {
                lemma_name_lt_total(cs@, name@);
            }
            let eq = !names_lt(name, &cs);
            proof {
                lemma_name_lt_total(name@, cs@);
            }
            return (i, eq);
        }
        i = i + 1;
    }
    (i, false)
}

/// `BTreeMap::get_mut`: for a key in the map, a reference to its value,
/// through which the caller may change that value and nothing else of the
/// map; for another key, `None` and the map unchanged. It does not panic.
#[verifier::external_body]
fn entity_get_mut<S>(m: &mut BTreeMap<EntityId, S>, id: EntityId) -> (r: Option<&mut S>)
    ensures
        r is Some <==> old(m)@.contains_key(id),
        r is Some ==> *r.unwrap() == old(m)@[id] && final(m)@ == old(m)@.insert(id, *final(r.unwrap())),
        r is None ==> final(m)@ == old(m)@,
    no_unwind
{
    m.get_mut(&id)
}

/// Lexicographic order is a strict total order: of two different names one
/// comes first.
pub proof fn lemma_name_lt_total(a: Seq<char>, b: Seq<char>)
    ensures
        a == b || name_lt(a, b) || name_lt(b, a),
        !(name_lt(a, b) && name_lt(b, a)),
        !name_lt(a, a),
    decreases a.len(),
{
    if a.len() > 0 {
        lemma_name_lt_total(a.drop_first(), a.drop_first());
    }
    if a.len() == 0 && b.len() == 0 {
        assert(a =~= b);
    } else if a.len() > 0 && b.len() > 0 {
        if a[0] == b[0] {
            lemma_name_lt_total(a.drop_first(), b.drop_first());
            if a.drop_first() =~= b.drop_first() {
                assert forall|k: int| 0 <= k < a.len() implies a[k] == b[k] by {
                    if k > 0 {
                        assert(a[k] == a.drop_first()[k - 1]);
                        assert(b[k] == b.drop_first()[k - 1]);
                    }
                }
                assert(a =~= b);
            }
        } else {
            assert((a[0] as int) != (b[0] as int));
        }
    }
}

/// `name_lt` is the lexicographic order of strings: `a` comes before `b`
/// exactly when `a` is a proper prefix of `b`, or when at the first
/// position where they differ the character of `a` is the smaller one.
pub proof fn lemma_name_lt_lexicographic(a: Seq<char>, b: Seq<char>)
    ensures
        name_lt(a, b) <==> (a.len() < b.len() && b.take(a.len() as int) == a) || exists|i: int|
            0 <= i < a.len() && i < b.len() && a.take(i) == b.take(i) && (#[trigger] a[i] as int) < (
            b[i] as int),
    decreases a.len(),
{
    if a.len() == 0 {
        if b.len() > 0 {
            assert(b.take(0) =~= a);
        }
    } else if b.len() == 0 {
    } else if a[0] != b[0] {
        if (a[0] as int) < (b[0] as int) {
            assert(a.take(0) =~= b.take(0));
        }
        if a.len() < b.len() && b.take(a.len() as int) == a {
            assert(b.take(a.len() as int)[0] == b[0]);
        }
        if exists|i: int|
            0 <= i < a.len() && i < b.len() && a.take(i) == b.take(i) && (#[trigger] a[i] as int) < (
            b[i] as int) {
            let i = choose|i: int|
                0 <= i < a.len() && i < b.len() && a.take(i) == b.take(i) && (#[trigger] a[i] as int)
                    < (b[i] as int);
            if i > 0 {
                assert(a.take(i)[0] == b.take(i)[0]);
            }
        }
    } else {
        let a1 = a.drop_first();
        let b1 = b.drop_first();
        lemma_name_lt_lexicographic(a1, b1);
        // A proper prefix of `b` is one of `b1` after the common first character.
        if a.len() < b.len() && b.take(a.len() as int) == a {
            assert(b1.take(a1.len() as int) =~= a1) by {
                assert forall|k: int| 0 <= k < a1.len() implies #[trigger] b1.take(a1.len() as int)[k] == a1[k] by {
                    assert(b.take(a.len() as int)[k + 1] == a[k + 1]);
                }
            }
        }
        if a1.len() < b1.len() && b1.take(a1.len() as int) == a1 {
            assert(b.take(a.len() as int) =~= a) by {
                assert forall|k: int| 0 <= k < a.len() implies #[trigger] b.take(a.len() as int)[k] == a[k] by {
                    if k > 0 {
                        assert(b1.take(a1.len() as int)[k - 1] == a1[k - 1]);
                    }
                }
            }
        }
        if exists|i: int|
            0 <= i < a.len() && i < b.len() && a.take(i) == b.take(i) && (#[trigger] a[i] as int) < (
            b[i] as int) {
            let i = choose|i: int|
                0 <= i < a.len() && i < b.len() && a.take(i) == b.take(i) && (#[trigger] a[i] as int)
                    < (b[i] as int);
            assert(i > 0);
            assert(a1.take(i - 1) =~= b1.take(i - 1)) by {
                assert forall|k: int| 0 <= k < i - 1 implies #[trigger] a1.take(i - 1)[k] == b1.take(i - 1)[k] by {
                    assert(a.take(i)[k + 1] == b.take(i)[k + 1]);
                }
            }
            assert(a1[i - 1] == a[i] && b1[i - 1] == b[i]);
        }
        if exists|j: int|
            0 <= j < a1.len() && j < b1.len() && a1.take(j) == b1.take(j) && (#[trigger] a1[j] as int)
                < (b1[j] as int) {
            let j = choose|j: int|
                0 <= j < a1.len() && j < b1.len() && a1.take(j) == b1.take(j) && (#[trigger] a1[j] as int)
                    < (b1[j] as int);
            assert(a.take(j + 1) =~= b.take(j + 1)) by {
                assert forall|k: int| 0 <= k < j + 1 implies #[trigger] a.take(j + 1)[k] == b.take(j + 1)[k] by {
                    if k > 0 {
                        assert(a1.take(j)[k - 1] == b1.take(j)[k - 1]);
                    }
                }
            }
            assert(a[j + 1] == a1[j] && b[j + 1] == b1[j]);
        }
    }
}

/// A name comes before every longer name that it begins: `"physics"`
/// comes before `"physics_post"`.
pub proof fn lemma_prefix_comes_first(a: Seq<char>, s: Seq<char>)
    requires
        s.len() > 0,
    ensures
        name_lt(a, a + s),
        !name_lt(a + s, a),
{
    lemma_name_lt_lexicographic(a, a + s);
    assert((a + s).take(a.len() as int) =~= a);
    lemma_name_lt_total(a, a + s);
}

/// Lexicographic order is transitive.
pub proof fn lemma_name_lt_trans(a: Seq<char>, b: Seq<char>, c: Seq<char>)
    requires
        name_lt(a, b),
        name_lt(b, c),
    ensures
        name_lt(a, c),
    decreases a.len(),
{
    if a.len() > 0 && b.len() > 0 && c.len() > 0 && a[0] == b[0] && b[0] == c[0] {
        lemma_name_lt_trans(a.drop_first(), b.drop_first(), c.drop_first());
    }
}

/// Whether `a` comes strictly before `b` (see `name_lt`).
fn names_lt(a: &Vec<char>, b: &Vec<char>) -> (r: bool)
    ensures
        r == name_lt(a@, b@),
{
    let mut i: usize = 0;
    assert(a@.skip(0) =~= a@);
    assert(b@.skip(0) =~= b@);
    while i < a.len() && i < b.len() && a[i] == b[i]
        invariant
            i <= a@.len(),
            i <= b@.len(),
            name_lt(a@, b@) == name_lt(a@.skip(i as int), b@.skip(i as int)),
        decreases a@.len() - i,
    {
        proof {
            assert(a@.skip(i as int).drop_first() =~= a@.skip(i + 1));
            assert(b@.skip(i as int).drop_first() =~= b@.skip(i + 1));
        }
        i = i + 1;
    }
    proof {
        if i < a.len() && i < b.len() {
            assert(a@.skip(i as int)[0] == a@[i as int]);
            assert(b@.skip(i as int)[0] == b@[i as int]);
        }
    }
    if i == a.len() {
        i < b.len()
    } else if i == b.len() {
        false
    } else {
        a[i] < b[i]
    }
}

/// The names are in strictly increasing order.
pub open spec fn strictly_sorted(names: Seq<Seq<char>>) -> bool {
    forall|i: int, j: int| 0 <= i < j < names.len() ==> name_lt(#[trigger] names[i], #[trigger] names[j])
}

/// The order in which the systems run depends only on which names are
/// registered, not on the order of registration: two strictly sorted name
/// lists that hold the same names are equal.
pub proof fn lemma_run_order_by_names(a: Seq<Seq<char>>, b: Seq<Seq<char>>)
    requires
        strictly_sorted(a),
        strictly_sorted(b),
        a.to_set() == b.to_set(),
    ensures
        a == b,
    decreases a.len(),
{
    if a.len() == 0 {
        if b.len() > 0 {
            assert(b.to_set().contains(b[0]));
        }
        assert(a =~= b);
    } else {
        assert(a.to_set().contains(a[0]));
        assert(b.contains(a[0]));
        let j = choose|j: int| 0 <= j < b.len() && b[j] == a[0];
        assert(b.to_set().contains(b[0]));
        assert(a.contains(b[0]));
        let i = choose|i: int| 0 <= i < a.len() && a[i] == b[0];
        lemma_name_lt_total(a[0], a[0]);
        if j > 0 {
            assert(name_lt(b[0], b[j]));
            if i > 0 {
                assert(name_lt(a[0], a[i]));
                lemma_name_lt_total(a[0], b[0]);
            }
        }
        assert(b[0] == a[0]);
        let a1 = a.drop_first();
        let b1 = b.drop_first();
        assert forall|x: Seq<char>| #[trigger] a1.to_set().contains(x) <==> b1.to_set().contains(x) by {
            if a1.contains(x) {
                let k = choose|k: int| 0 <= k < a1.len() && a1[k] == x;
                assert(a[k + 1] == x);
                assert(name_lt(a[0], a[k + 1]));
                assert(a.contains(x));
                assert(a.to_set().contains(x));
                assert(b.to_set().contains(x));
                assert(b.contains(x));
                let m = choose|m: int| 0 <= m < b.len() && b[m] == x;
                if m == 0 {
                    lemma_name_lt_total(a[0], x);
                }
                assert(b1[m - 1] == x);
            }
            if b1.contains(x) {
                let k = choose|k: int| 0 <= k < b1.len() && b1[k] == x;
                assert(b[k + 1] == x);
                assert(name_lt(b[0], b[k + 1]));
                assert(b.contains(x));
                assert(b.to_set().contains(x));
                assert(a.to_set().contains(x));
                assert(a.contains(x));
                let m = choose|m: int| 0 <= m < a.len() && a[m] == x;
                if m == 0 {
                    lemma_name_lt_total(b[0], x);
                }
                assert(a1[m - 1] == x);
            }
        }
        assert(a1.to_set() =~= b1.to_set());
        assert(strictly_sorted(a1)) by {
            assert forall|p: int, q: int| 0 <= p < q < a1.len() implies name_lt(
                #[trigger] a1[p],
                #[trigger] a1[q],
            ) by {
                assert(name_lt(a[p + 1], a[q + 1]));
            }
        }
        assert(strictly_sorted(b1)) by {
            assert forall|p: int, q: int| 0 <= p < q < b1.len() implies name_lt(
                #[trigger] b1[p],
                #[trigger] b1[q],
            ) by {
                assert(name_lt(b[p + 1], b[q + 1]));
            }
        }
        lemma_run_order_by_names(a1, b1);
        assert(a.len() == b.len());
        assert forall|k: int| 0 <= k < a.len() implies a[k] == b[k] by {
            if k > 0 {
                assert(a[k] == a1[k - 1]);
                assert(b[k] == b1[k - 1]);
            }
        }
        assert(a =~= b);
    }
}

/// The systems ran once each, in order, from the entity map `before` to
/// `after`: system `i` ran on the borrow `ms[i]` of the map that system
/// `i - 1` left (`before` for the first), and `ends[i]` is the map that it
/// left; `after` is the last of these (`before` when there is no system).
/// That `ends[i]` is what `ms[i]` holds at its end is stated beside each use.
pub open spec fn runs_in_order<S>(
    systems: Seq<Box<dyn SystemFn<S>>>,
    ms: Seq<&mut BTreeMap<EntityId, S>>,
    ends: Seq<BTreeMap<EntityId, S>>,
    before: BTreeMap<EntityId, S>,
    after: BTreeMap<EntityId, S>,
) -> bool {
    &&& ms.len() == systems.len()
    &&& ends.len() == systems.len()
    &&& forall|i: int|
        0 <= i < systems.len() ==> *#[trigger] ms[i] == (if i == 0 {
            before
        } else {
            ends[i - 1]
        })
    &&& forall|i: int| 0 <= i < systems.len() ==> #[trigger] systems[i].effect(ms[i])
    &&& after == (if systems.len() == 0 {
        before
    } else {
        ends[systems.len() - 1]
    })
}

/// The entity map went through `stores`, one step after another: step `j`
/// ran every system once in order from `stores[j]` to `stores[j + 1]`, with
/// the borrows `mss[j]` and the maps `endss[j]` (see `runs_in_order`).
pub open spec fn steps_in_order<S>(
    systems: Seq<Box<dyn SystemFn<S>>>,
    mss: Seq<Seq<&mut BTreeMap<EntityId, S>>>,
    endss: Seq<Seq<BTreeMap<EntityId, S>>>,
    stores: Seq<BTreeMap<EntityId, S>>,
) -> bool {
    &&& mss.len() + 1 == stores.len()
    &&& endss.len() == mss.len()
    &&& forall|j: int|
        0 <= j < mss.len() ==> #[trigger] runs_in_order(systems, mss[j], endss[j], stores[j], stores[j + 1])
}

/// A step whose systems each leave the set of entity ids as they found it
/// (`ends[i]` has the ids of the map that system `i` was given) leaves the
/// set of ids unchanged, and so the number of entities.
pub proof fn lemma_runs_keep_ids<S>(
    systems: Seq<Box<dyn SystemFn<S>>>,
    ms: Seq<&mut BTreeMap<EntityId, S>>,
    ends: Seq<BTreeMap<EntityId, S>>,
    before: BTreeMap<EntityId, S>,
    after: BTreeMap<EntityId, S>,
)
    requires
        runs_in_order(systems, ms, ends, before, after),
        forall|i: int| 0 <= i < ms.len() ==> (#[trigger] ends[i])@.dom() == (*ms[i])@.dom(),
    ensures
        after@.dom() == before@.dom(),
        after@.len() == before@.len(),
{
    let n = systems.len() as int;
    assert forall|i: int| 0 <= i < n implies (#[trigger] ends[i])@.dom() == before@.dom() by {
        lemma_ends_keep_ids(systems, ms, ends, before, after, i);
    }
    if n > 0 {
        assert(ends[n - 1]@.dom() == before@.dom());
    }
}

/// The induction behind `lemma_runs_keep_ids`: each map in the chain has
/// the ids of the first.
proof fn lemma_ends_keep_ids<S>(
    systems: Seq<Box<dyn SystemFn<S>>>,
    ms: Seq<&mut BTreeMap<EntityId, S>>,
    ends: Seq<BTreeMap<EntityId, S>>,
    before: BTreeMap<EntityId, S>,
    after: BTreeMap<EntityId, S>,
    i: int,
)
    requires
        runs_in_order(systems, ms, ends, before, after),
        forall|k: int| 0 <= k < ms.len() ==> (#[trigger] ends[k])@.dom() == (*ms[k])@.dom(),
        0 <= i < systems.len(),
    ensures
        ends[i]@.dom() == before@.dom(),
    decreases i,
{
    assert(ends[i]@.dom() == (*ms[i])@.dom());
    if i > 0 {
        lemma_ends_keep_ids(systems, ms, ends, before, after, i - 1);
        assert(*ms[i] == ends[i - 1]);
    } else {
        assert(*ms[i] == before);
    }
}

/// Steps whose systems each leave the set of entity ids as they found it
/// leave the set of ids, and the number of entities, unchanged.
pub proof fn lemma_steps_keep_ids<S>(
    systems: Seq<Box<dyn SystemFn<S>>>,
    mss: Seq<Seq<&mut BTreeMap<EntityId, S>>>,
    endss: Seq<Seq<BTreeMap<EntityId, S>>>,
    stores: Seq<BTreeMap<EntityId, S>>,
)
    requires
        steps_in_order(systems, mss, endss, stores),
        forall|j: int, i: int|
            0 <= j < mss.len() && 0 <= i < mss[j].len() ==> (#[trigger] endss[j][i])@.dom() == (
            *mss[j][i])@.dom(),
    ensures
        stores.last()@.dom() == stores[0]@.dom(),
        stores.last()@.len() == stores[0]@.len(),
    decreases mss.len(),
{
    let n = mss.len() as int;
    if n > 0 {
        let mss2 = mss.take(n - 1);
        let endss2 = endss.take(n - 1);
        let stores2 = stores.take(n);
        assert(steps_in_order(systems, mss2, endss2, stores2)) by {
            assert forall|j: int| 0 <= j < mss2.len() implies #[trigger] runs_in_order(
                systems,
                mss2[j],
                endss2[j],
                stores2[j],
                stores2[j + 1],
            ) by {
                assert(runs_in_order(systems, mss[j], endss[j], stores[j], stores[j + 1]));
            }
        }
        assert forall|j: int, i: int|
            0 <= j < mss2.len() && 0 <= i < mss2[j].len() implies (#[trigger] endss2[j][i])@.dom()
            == (*mss2[j][i])@.dom() by {
            assert(endss[j][i]@.dom() == (*mss[j][i])@.dom());
        }
        lemma_steps_keep_ids(systems, mss2, endss2, stores2);
        assert(runs_in_order(systems, mss[n - 1], endss[n - 1], stores[n - 1], stores[n]));
        assert forall|i: int| 0 <= i < mss[n - 1].len() implies (#[trigger] endss[n - 1][i])@.dom()
            == (*mss[n - 1][i])@.dom() by {
            assert(endss[n - 1][i]@.dom() == (*mss[n - 1][i])@.dom());
        }
        lemma_runs_keep_ids(systems, mss[n - 1], endss[n - 1], stores[n - 1], stores[n]);
        assert(stores2.last() == stores[n - 1]);
    }
}

/// A simulation: entities, each with a state of type `S`, and named
/// systems. Each step runs every system once, in increasing order of name,
/// on the entity map.
#[verifier::reject_recursive_types(S)]
pub struct DeterministicSim<S: Clone + core::fmt::Debug> {
    entities: BTreeMap<EntityId, S>,
    /// The systems with their names, strictly sorted by name (the type
    /// invariant), so that a step walks them in name order. A vector holds
    /// them: vstd states a `BTreeMap`'s order and lookups only for key types
    /// whose `Ord` it knows to be lawful, and `String` is not one of them;
    /// here both are proved.
    systems: Vec<(String, Box<dyn SystemFn<S>>)>,
    next_id: u64,
    step_count: u64,
}

impl<S: Clone + core::fmt::Debug> DeterministicSim<S> {
    /// The entity map itself.
    pub closed spec fn entity_store(&self) -> BTreeMap<EntityId, S> {
        self.entities
    }

    /// The entity states by id.
    pub open spec fn entities_view(&self) -> Map<EntityId, S> {
        self.entity_store()@
    }

    /// The systems, in the order they run (that of `system_names`).
    pub closed spec fn system_seq(&self) -> Seq<Box<dyn SystemFn<S>>> {
        self.systems@.map_values(|e: (String, Box<dyn SystemFn<S>>)| e.1)
    }

    /// The system names, in the order the systems run.
    pub closed spec fn system_names(&self) -> Seq<Seq<char>> {
        self.systems@.map_values(|e: (String, Box<dyn SystemFn<S>>)| e.0@)
    }

    /// The id that the next spawned entity gets.
    pub closed spec fn next_id_view(&self) -> u64 {
        self.next_id
    }

    /// The number of steps run so far.
    pub closed spec fn steps(&self) -> u64 {
        self.step_count
    }

    #[verifier::type_invariant]
    closed spec fn well_formed(self) -> bool {
        &&& strictly_sorted(self.system_names())
        &&& forall|i: int| 0 <= i < self.systems@.len() ==> (#[trigger] self.systems@[i]).1.ready()
    }

    /// An empty simulation.
    pub fn new() -> (r: Self)
        ensures
            r.entities_view() == Map::<EntityId, S>::empty(),
            r.system_names() == Seq::<Seq<char>>::empty(),
            r.next_id_view() == 0,
            r.steps() == 0,
    {
        let r = DeterministicSim {
            entities: BTreeMap::new(),
            systems: Vec::new(),
            next_id: 0,
            step_count: 0,
        };
        assert(r.system_names() =~= Seq::<Seq<char>>::empty());
        r
    }

    /// The entity map holds finitely many entities.
    pub proof fn lemma_entities_finite(&self)
        ensures
            self.entities_view().dom().finite(),
    {
        assert(self.entities@.dom().finite());
    }

    /// The systems are strictly sorted by name, one system per name.
    pub fn check_well_formed(&self)
        ensures
            strictly_sorted(self.system_names()),
            self.system_seq().len() == self.system_names().len(),
    {
        proof {
            use_type_invariant(self);
        }
    }

    /// Adds an entity with state `state` under the next id, which it
    /// returns; the next id then grows by one (it must stay below
    /// `u64::MAX`).
    pub fn spawn(&mut self, state: S) -> (id: EntityId)
        requires
            old(self).next_id_view() < u64::MAX,
        ensures
            id == old(self).next_id_view(),
            final(self).next_id_view() == id + 1,
            final(self).entities_view() == old(self).entities_view().insert(id, state),
            final(self).entities_view().len() == old(self).entities_view().len() + if old(
                self,
            ).entities_view().contains_key(id) {
                0int
            } else {
                1int
            },
            final(self).system_names() == old(self).system_names(),
            final(self).system_seq() == old(self).system_seq(),
            final(self).steps() == old(self).steps(),
    {
        proof {
            use_type_invariant(&*self);
        }
        let id = self.next_id;
        self.next_id = self.next_id + 1;
        let mut ents = BTreeMap::new();
        std::mem::swap(&mut ents, &mut self.entities);
        ents.insert(id, state);
        self.entities = ents;
        id
    }

    /// Removes entity `id`, returning its last state, or `None` when there
    /// is no such entity.
    pub fn despawn(&mut self, id: EntityId) -> (r: Option<S>)
        ensures
            match r {
                Some(s) => old(self).entities_view().contains_key(id) && s == old(self).entities_view()[id],
                None => !old(self).entities_view().contains_key(id),
            },
            final(self).entities_view() == old(self).entities_view().remove(id),
            final(self).system_names() == old(self).system_names(),
            final(self).system_seq() == old(self).system_seq(),
            final(self).next_id_view() == old(self).next_id_view(),
            final(self).steps() == old(self).steps(),
    {
        proof {
            use_type_invariant(&*self);
        }
        let mut ents = BTreeMap::new();
        std::mem::swap(&mut ents, &mut self.entities);
        let r = ents.remove(&id);
        self.entities = ents;
        r
    }

    /// The state of entity `id`, or `None` when there is no such entity.
    pub fn get(&self, id: EntityId) -> (r: Option<&S>)
        ensures
            match r {
                Some(s) => self.entities_view().contains_key(id) && *s == self.entities_view()[id],
                None => !self.entities_view().contains_key(id),
            },
    {
        self.entities.get(&id)
    }

    /// The state of entity `id` for in-place change, or `None` when there is
    /// no such entity.
    pub fn get_mut(&mut self, id: EntityId) -> (r: Option<&mut S>)
        ensures
            r is Some <==> old(self).entities_view().contains_key(id),
            r is Some ==> *r.unwrap() == old(self).entities_view()[id]
                && final(self).entities_view() == old(self).entities_view().insert(id, *final(r.unwrap())),
            r is None ==> final(self).entities_view() == old(self).entities_view(),
            final(self).system_names() == old(self).system_names(),
            final(self).system_seq() == old(self).system_seq(),
            final(self).next_id_view() == old(self).next_id_view(),
            final(self).steps() == old(self).steps(),
    {
        proof {
            use_type_invariant(&*self);
        }
        entity_get_mut(&mut self.entities, id)
    }

    /// The entities as `(id, state)` pairs, in increasing order of id.
    pub fn iter(&self) -> (r: Vec<(EntityId, &S)>)
        ensures
            r@.len() == self.entities_view().len(),
            forall|i: int|
                0 <= i < r@.len() ==> self.entities_view().contains_key(#[trigger] r@[i].0)
                    && *r@[i].1 == self.entities_view()[r@[i].0],
            forall|i: int, j: int| 0 <= i < j < r@.len() ==> #[trigger] r@[i].0 < #[trigger] r@[j].0,
            forall|k: EntityId|
                #[trigger] self.entities_view().contains_key(k) ==> exists|i: int|
                    0 <= i < r@.len() && r@[i].0 == k,
    {
        proof {
            crate::verified_algorithms::order::lemma_u64_keys_ordered();
        }
        let ghost walk = vstd::std_specs::btree::spec_btree_map_iter(&self.entities).remaining();
        let mut out: Vec<(EntityId, &S)> = Vec::new();
        for kv in it: self.entities.iter()
            invariant
                it.seq() == walk,
                out@.len() == it.index(),
                forall|i: int|
                    0 <= i < it.index() ==> (#[trigger] out@[i]).0 == *it.seq()[i].0 && out@[i].1
                        == it.seq()[i].1,
        {
            let (k, v) = kv;
            out.push((*k, v));
        }
        proof {
            let keys = walk.map_values(|kv: (&EntityId, &S)| *kv.0);
            assert(vstd::std_specs::btree::increasing_seq(keys));
            assert forall|i: int, j: int| 0 <= i < j < out@.len() implies #[trigger] out@[i].0
                < #[trigger] out@[j].0 by {
                assert(keys[i] == out@[i].0);
                assert(keys[j] == out@[j].0);
            }
            assert forall|k: EntityId| #[trigger] self.entities_view().contains_key(k) implies exists|
                i: int,
            | 0 <= i < out@.len() && out@[i].0 == k by {
                assert(walk.contains((&k, &self.entities@[k])));
                let i = choose|i: int| 0 <= i < walk.len() && walk[i] == (&k, &self.entities@[k]);
                assert(out@[i].0 == k);
            }
        }
        out
    }

    /// The number of entities.
    pub fn entity_count(&self) -> (r: usize)
        ensures
            r == self.entities_view().len(),
    {
        self.entities.len()
    }

    /// The number of steps run so far.
    pub fn step_count(&self) -> (r: u64)
        ensures
            r == self.steps(),
    {
        self.step_count
    }

    /// Registers `system` under `name`, replacing a system of the same name.
    /// The systems stay sorted by name. The closure must accept every entity
    /// map.
    pub fn add_system<F>(&mut self, name: &str, system: F) where
        F: Fn(&mut BTreeMap<EntityId, S>) + 'static,
        S: 'static,

        requires
            forall|m: &mut BTreeMap<EntityId, S>| call_requires(system, (m,)),
        ensures
            final(self).system_names().to_set() == old(self).system_names().to_set().insert(name@),
            final(self).system_names().len() == old(self).system_names().len() + if old(self).system_names().contains(name@) {
                0int
            } else {
                1int
            },
            exists|j: int|
                0 <= j < final(self).system_names().len() && final(self).system_names()[j] == name@
                    && (forall|m: &mut BTreeMap<EntityId, S>|
                    #[trigger] final(self).system_seq()[j].effect(m) == call_ensures(system, (m,), ()))
                    && if old(self).system_names().contains(name@) {
                    &&& final(self).system_names() == old(self).system_names()
                    &&& final(self).system_seq().len() == old(self).system_seq().len()
                    &&& forall|k: int|
                        0 <= k < old(self).system_seq().len() && k != j ==> #[trigger] final(self).system_seq()[k] == old(self).system_seq()[k]
                } else {
                    &&& final(self).system_names() == old(self).system_names().insert(j, name@)
                    &&& final(self).system_seq().len() == old(self).system_seq().len() + 1
                    &&& forall|k: int|
                        0 <= k < j ==> #[trigger] final(self).system_seq()[k] == old(self).system_seq()[k]
                    &&& forall|k: int|
                        j < k <= old(self).system_seq().len() ==> #[trigger] final(self).system_seq()[k] == old(self).system_seq()[k - 1]
                },
            final(self).entity_store() == old(self).entity_store(),
            final(self).next_id_view() == old(self).next_id_view(),
            final(self).steps() == old(self).steps(),
    {
        proof {
            use_type_invariant(&*self);
        }
        let key = chars_of(name);
        let (i, found) = find_system(&self.systems, &key);
        let entry: (String, Box<dyn SystemFn<S>>) = (name.to_owned(), Box::new(ClosureSystem { f: system }));
        assert(entry.1.ready());
        let ghost old_names = self.system_names();
        let mut systems: Vec<(String, Box<dyn SystemFn<S>>)> = Vec::new();
        std::mem::swap(&mut systems, &mut self.systems);
        assert(systems@.map_values(|e: (String, Box<dyn SystemFn<S>>)| e.0@) == old_names);
        assert(systems@.len() == old_names.len());
        let ghost before = systems@;
        let ghost e = entry;
        assert(found ==> i < before.len());
        assert(i <= before.len());
        if found {
            let _replaced = systems.remove(i);
            systems.insert(i, entry);
            proof {
                before.remove_ensures(i as int);
                before.remove(i as int).insert_ensures(i as int, e);
            }
            assert(systems@ == before.remove(i as int).insert(i as int, e));
        } else {
            systems.insert(i, entry);
            assert(systems@ == before.insert(i as int, e));
            proof {
                before.insert_ensures(i as int, e);
            }
            assert(systems@.len() == before.len() + 1);
        }
        proof {
            let new_names = systems@.map_values(|e: (String, Box<dyn SystemFn<S>>)| e.0@);
            assert(new_names.len() == systems@.len());
            if found {
                assert(new_names.len() == old_names.len());
                assert forall|k: int| 0 <= k < new_names.len() implies new_names[k] == old_names[k] by {
                    assert(new_names[k] == systems@[k].0@);
                    assert(old_names[k] == before[k].0@);
                    if k > i {
                        assert(systems@[k] == before.remove(i as int)[k - 1]);
                    }
                }
                assert(new_names =~= old_names);
                assert(old_names[i as int] == name@);
                assert(old_names.contains(name@));
                assert(new_names.to_set() =~= old_names.to_set().insert(name@));
            } else {
                assert(new_names =~= old_names.insert(i as int, name@));
                assert forall|a: int, b: int| 0 <= a < b < new_names.len() implies name_lt(
                    #[trigger] new_names[a],
                    #[trigger] new_names[b],
                ) by {
                    if b == i {
                    } else if a == i {
                        if b > i + 1 {
                            lemma_name_lt_trans(name@, old_names[i as int], old_names[b - 1]);
                        }
                    } else if a > i {
                        assert(name_lt(old_names[a - 1], old_names[b - 1]));
                    } else if b > i {
                        assert(name_lt(old_names[a], old_names[b - 1]));
                    } else {
                        assert(name_lt(old_names[a], old_names[b]));
                    }
                }
                assert(!old_names.contains(name@)) by {
                    if old_names.contains(name@) {
                        let k = choose|k: int| 0 <= k < old_names.len() && old_names[k] == name@;
                        if k < i {
                            lemma_name_lt_total(name@, name@);
                        } else {
                            lemma_name_lt_total(name@, name@);
                            if k > i {
                                lemma_name_lt_trans(name@, old_names[i as int], old_names[k]);
                            }
                        }
                    }
                }
                assert forall|x: Seq<char>| #[trigger] new_names.contains(x) <==> old_names.to_set().insert(
                    name@,
                ).contains(x) by {
                    if new_names.contains(x) {
                        let k = choose|k: int| 0 <= k < new_names.len() && new_names[k] == x;
                        if k < i {
                            assert(old_names[k] == x);
                        } else if k > i {
                            assert(old_names[k - 1] == x);
                        }
                    }
                    if old_names.contains(x) {
                        let k = choose|k: int| 0 <= k < old_names.len() && old_names[k] == x;
                        if k < i {
                            assert(new_names[k] == x);
                        } else {
                            assert(new_names[k + 1] == x);
                        }
                    }
                    if x == name@ {
                        assert(new_names[i as int] == x);
                    }
                }
                assert(new_names.to_set() =~= old_names.to_set().insert(name@));
            }
            let old_sys = before.map_values(|e: (String, Box<dyn SystemFn<S>>)| e.1);
            let new_sys = systems@.map_values(|e: (String, Box<dyn SystemFn<S>>)| e.1);
            assert(new_sys[i as int] == e.1);
            assert forall|m: &mut BTreeMap<EntityId, S>| #[trigger] new_sys[i as int].effect(m)
                == call_ensures(system, (m,), ()) by {}
            if found {
                assert forall|k: int| 0 <= k < old_sys.len() && k != i implies #[trigger] new_sys[k]
                    == old_sys[k] by {
                    if k > i {
                        assert(systems@[k] == before.remove(i as int)[k - 1]);
                    } else {
                        assert(systems@[k] == before.remove(i as int)[k]);
                    }
                }
                assert(new_names =~= old_names);
            } else {
                assert forall|k: int| 0 <= k < i implies #[trigger] new_sys[k] == old_sys[k] by {
                    assert(systems@[k] == before[k]);
                }
                assert forall|k: int| i < k <= old_sys.len() implies #[trigger] new_sys[k]
                    == old_sys[k - 1] by {
                    assert(systems@[k] == before[k - 1]);
                }
                assert(new_names =~= old_names.insert(i as int, name@));
            }
        }
        self.systems = systems;
        proof {
            let j = i as int;
            assert(self.system_names()[j] == name@);
            assert(forall|m: &mut BTreeMap<EntityId, S>|
                #[trigger] self.system_seq()[j].effect(m) == call_ensures(system, (m,), ()));
        }
    }

    /// Removes the system registered under `name`; `true` when there was
    /// one.
    pub fn remove_system(&mut self, name: &str) -> (r: bool)
        ensures
            r == old(self).system_names().contains(name@),
            r ==> exists|i: int|
                0 <= i < old(self).system_names().len() && old(self).system_names()[i] == name@
                    && final(self).system_names() == old(self).system_names().remove(i),
            !r ==> final(self).system_names() == old(self).system_names(),
            !r ==> final(self).system_seq() == old(self).system_seq(),
            r ==> exists|i: int|
                0 <= i < old(self).system_names().len() && old(self).system_names()[i] == name@
                    && final(self).system_seq().len() + 1 == old(self).system_seq().len() && (forall|k: int|
                    0 <= k < i ==> #[trigger] final(self).system_seq()[k] == old(self).system_seq()[k])
                    && (forall|k: int|
                    i <= k < final(self).system_seq().len() ==> #[trigger] final(self).system_seq()[k]
                        == old(self).system_seq()[k + 1]),
            !final(self).system_names().contains(name@),
            final(self).entity_store() == old(self).entity_store(),
            final(self).next_id_view() == old(self).next_id_view(),
            final(self).steps() == old(self).steps(),
    {
        proof {
            use_type_invariant(&*self);
        }
        let key = chars_of(name);
        let (i, found) = find_system(&self.systems, &key);
        let ghost old_names = self.system_names();
        if !found {
            proof {
                if old_names.contains(name@) {
                    let k = choose|k: int| 0 <= k < old_names.len() && old_names[k] == name@;
                    lemma_name_lt_total(name@, name@);
                    if k > i {
                        lemma_name_lt_trans(name@, old_names[i as int], old_names[k]);
                    }
                }
            }
            return false;
        }
        let mut systems: Vec<(String, Box<dyn SystemFn<S>>)> = Vec::new();
        std::mem::swap(&mut systems, &mut self.systems);
        let ghost before = systems@;
        let _removed = systems.remove(i);
        proof {
            let new_names = systems@.map_values(|e: (String, Box<dyn SystemFn<S>>)| e.0@);
            assert(new_names =~= old_names.remove(i as int));
            assert forall|a: int, b: int| 0 <= a < b < new_names.len() implies name_lt(
                #[trigger] new_names[a],
                #[trigger] new_names[b],
            ) by {
                if a >= i {
                    assert(name_lt(old_names[a + 1], old_names[b + 1]));
                } else if b >= i {
                    assert(name_lt(old_names[a], old_names[b + 1]));
                } else {
                    assert(name_lt(old_names[a], old_names[b]));
                }
            }
            assert(old_names[i as int] == name@);
            let old_sys = before.map_values(|e: (String, Box<dyn SystemFn<S>>)| e.1);
            let new_sys = systems@.map_values(|e: (String, Box<dyn SystemFn<S>>)| e.1);
            assert forall|k: int| 0 <= k < i implies #[trigger] new_sys[k] == old_sys[k] by {
                assert(systems@[k] == before[k]);
            }
            assert forall|k: int| i <= k < new_sys.len() implies #[trigger] new_sys[k] == old_sys[k + 1] by {
                assert(systems@[k] == before[k + 1]);
            }
            assert(!new_names.contains(name@)) by {
                if new_names.contains(name@) {
                    let k = choose|k: int| 0 <= k < new_names.len() && new_names[k] == name@;
                    lemma_name_lt_total(name@, name@);
                    if k < i {
                        assert(name_lt(old_names[k], old_names[i as int]));
                    } else {
                        assert(name_lt(old_names[i as int], old_names[k + 1]));
                    }
                }
            }
        }
        self.systems = systems;
        true
    }

    /// Runs every system once, in increasing order of name, on the entity
    /// map, and counts the step (the count must stay below `u64::MAX`).
    pub fn step(&mut self)
        requires
            old(self).steps() < u64::MAX,
        ensures
            final(self).steps() == old(self).steps() + 1,
            final(self).system_names() == old(self).system_names(),
            final(self).system_seq() == old(self).system_seq(),
            final(self).next_id_view() == old(self).next_id_view(),
            exists|ms: Seq<&mut BTreeMap<EntityId, S>>, ends: Seq<BTreeMap<EntityId, S>>|
                runs_in_order(
                    old(self).system_seq(),
                    ms,
                    ends,
                    old(self).entity_store(),
                    final(self).entity_store(),
                ) && forall|i: int| 0 <= i < ms.len() ==> *final(#[trigger] ms[i]) == ends[i],
    {
        proof {
            use_type_invariant(&*self);
        }
        let ghost sys = self.system_seq();
        let ghost start = self.entities;
        let mut ents = BTreeMap::new();
        std::mem::swap(&mut ents, &mut self.entities);
        let n = self.systems.len();
        let mut i: usize = 0;
        proof {
            let ms0 = Seq::<&mut BTreeMap<EntityId, S>>::empty();
            let ends0 = Seq::<BTreeMap<EntityId, S>>::empty();
            assert(runs_in_order(sys.take(0), ms0, ends0, start, ents));
        }
        while i < n
            invariant
                i <= n == self.systems@.len(),
                forall|k: int| 0 <= k < self.systems@.len() ==> (#[trigger] self.systems@[k]).1.ready(),
                sys == self.system_seq(),
                exists|ms: Seq<&mut BTreeMap<EntityId, S>>, ends: Seq<BTreeMap<EntityId, S>>|
                    runs_in_order(sys.take(i as int), ms, ends, start, ents) && forall|k: int|
                        0 <= k < ms.len() ==> *final(#[trigger] ms[k]) == ends[k],
            decreases n - i,
        {
            let ghost before = ents;
            self.systems[i].1.run(&mut ents);
            proof {
                let (ms, ends) = choose|
                    ms: Seq<&mut BTreeMap<EntityId, S>>,
                    ends: Seq<BTreeMap<EntityId, S>>,
                |
                    runs_in_order(sys.take(i as int), ms, ends, start, before) && forall|k: int|
                        0 <= k < ms.len() ==> *final(#[trigger] ms[k]) == ends[k];
                let m = choose|m: &mut BTreeMap<EntityId, S>|
                    *m == before && *final(m) == ents && self.systems@[i as int].1.effect(m);
                assert(sys[i as int] == self.systems@[i as int].1);
                let ms2 = ms.push(m);
                let ends2 = ends.push(ents);
                assert(sys.take(i + 1).len() == i + 1);
                assert forall|k: int| 0 <= k < i + 1 implies *#[trigger] ms2[k] == (if k == 0 {
                    start
                } else {
                    ends2[k - 1]
                }) && sys.take(i + 1)[k].effect(ms2[k]) by {
                    if k < i {
                        assert(sys.take(i + 1)[k] == sys.take(i as int)[k]);
                        assert(ms2[k] == ms[k]);
                        assert(sys.take(i as int)[k].effect(ms[k]));
                        if k > 0 {
                            assert(ends2[k - 1] == ends[k - 1]);
                        }
                    } else {
                        assert(ms2[k] == m);
                        assert(sys.take(i + 1)[k] == sys[i as int]);
                        if k > 0 {
                            assert(ends2[k - 1] == ends[k - 1]);
                            assert(before == ends[i - 1]);
                        }
                    }
                }
                assert(ms.len() == i && ends.len() == i);
                assert(ms2.len() == i + 1 && ends2.len() == i + 1);
                assert(ends2[i as int] == ents);
                assert(runs_in_order(sys.take(i + 1), ms2, ends2, start, ents));
                assert forall|k: int| 0 <= k < ms2.len() implies *final(#[trigger] ms2[k]) == ends2[k] by {
                    if k < i {
                        assert(ms2[k] == ms[k]);
                    }
                }
            }
            i = i + 1;
        }
        proof {
            assert(sys.take(n as int) =~= sys);
        }
        self.entities = ents;
        self.step_count = self.step_count + 1;
        proof {
            let (ms, ends) = choose|
                ms: Seq<&mut BTreeMap<EntityId, S>>,
                ends: Seq<BTreeMap<EntityId, S>>,
            |
                runs_in_order(sys.take(n as int), ms, ends, start, ents) && forall|k: int|
                    0 <= k < ms.len() ==> *final(#[trigger] ms[k]) == ends[k];
            assert(runs_in_order(old(self).system_seq(), ms, ends, old(self).entity_store(), self.entity_store()));
        }
    }

    /// Runs `n` steps (the count must stay within `u64`): the entity map
    /// goes through `n + 1` states, each reached from the one before by
    /// running every system once in name order, as `step` does.
    pub fn step_n(&mut self, n: u64)
        requires
            old(self).steps() + n <= u64::MAX,
        ensures
            final(self).steps() == old(self).steps() + n,
            final(self).system_names() == old(self).system_names(),
            final(self).system_seq() == old(self).system_seq(),
            final(self).next_id_view() == old(self).next_id_view(),
            exists|
                stores: Seq<BTreeMap<EntityId, S>>,
                mss: Seq<Seq<&mut BTreeMap<EntityId, S>>>,
                endss: Seq<Seq<BTreeMap<EntityId, S>>>,
            |
                #![trigger steps_in_order(old(self).system_seq(), mss, endss, stores)]
                steps_in_order(old(self).system_seq(), mss, endss, stores) && stores.len() == n + 1
                    && stores[0] == old(self).entity_store() && stores[n as int]
                    == final(self).entity_store() && forall|j: int, i: int|
                    0 <= j < mss.len() && 0 <= i < mss[j].len() ==> *final(#[trigger] mss[j][i])
                        == endss[j][i],
    {
        let mut k: u64 = 0;
        proof {
            use_type_invariant(&*self);
        }
        let ghost sys = self.system_seq();
        let ghost start = self.entity_store();
        proof {
            let stores0 = seq![start];
            let mss0 = Seq::<Seq<&mut BTreeMap<EntityId, S>>>::empty();
            let endss0 = Seq::<Seq<BTreeMap<EntityId, S>>>::empty();
            assert(steps_in_order(sys, mss0, endss0, stores0));
        }
        while k < n
            invariant
                k <= n,
                self.steps() == old(self).steps() + k,
                old(self).steps() + n <= u64::MAX,
                self.system_names() == old(self).system_names(),
                self.next_id_view() == old(self).next_id_view(),
                sys == old(self).system_seq(),
                start == old(self).entity_store(),
                self.system_seq() == sys,
                exists|
                    stores: Seq<BTreeMap<EntityId, S>>,
                    mss: Seq<Seq<&mut BTreeMap<EntityId, S>>>,
                    endss: Seq<Seq<BTreeMap<EntityId, S>>>,
                |
                    #![trigger steps_in_order(sys, mss, endss, stores)]
                    steps_in_order(sys, mss, endss, stores) && stores.len() == k + 1 && stores[0]
                        == start && stores[k as int] == self.entity_store() && forall|j: int, i: int|
                        0 <= j < mss.len() && 0 <= i < mss[j].len() ==> *final(#[trigger] mss[j][i]) == endss[j][i],
            decreases n - k,
        {
            let ghost before = self.entity_store();
            assert(exists|
                stores: Seq<BTreeMap<EntityId, S>>,
                mss: Seq<Seq<&mut BTreeMap<EntityId, S>>>,
                endss: Seq<Seq<BTreeMap<EntityId, S>>>,
            |
                #![trigger steps_in_order(sys, mss, endss, stores)]
                steps_in_order(sys, mss, endss, stores) && stores.len() == k + 1 && stores[0] == start
                    && stores[k as int] == before && forall|j: int, i: int|
                    0 <= j < mss.len() && 0 <= i < mss[j].len() ==> *final(#[trigger] mss[j][i])
                        == endss[j][i]);
            self.step();
            proof {
                let (stores, mss, endss) = choose|
                    stores: Seq<BTreeMap<EntityId, S>>,
                    mss: Seq<Seq<&mut BTreeMap<EntityId, S>>>,
                    endss: Seq<Seq<BTreeMap<EntityId, S>>>,
                |
                    #![trigger steps_in_order(sys, mss, endss, stores)]
                    steps_in_order(sys, mss, endss, stores) && stores.len() == k + 1 && stores[0]
                        == start && stores[k as int] == before && forall|j: int, i: int|
                        0 <= j < mss.len() && 0 <= i < mss[j].len() ==> *final(#[trigger] mss[j][i]) == endss[j][i];
                let (ms, ends) = choose|
                    ms: Seq<&mut BTreeMap<EntityId, S>>,
                    ends: Seq<BTreeMap<EntityId, S>>,
                |
                    runs_in_order(sys, ms, ends, before, self.entity_store()) && forall|i: int|
                        0 <= i < ms.len() ==> *final(#[trigger] ms[i]) == ends[i];
                let stores2 = stores.push(self.entity_store());
                let mss2 = mss.push(ms);
                let endss2 = endss.push(ends);
                assert forall|j: int| 0 <= j < mss2.len() implies #[trigger] runs_in_order(
                    sys,
                    mss2[j],
                    endss2[j],
                    stores2[j],
                    stores2[j + 1],
                ) by {
                    if j < k {
                        assert(runs_in_order(sys, mss[j], endss[j], stores[j], stores[j + 1]));
                    }
                }
                assert(steps_in_order(sys, mss2, endss2, stores2));
                assert forall|j: int, i: int|
                    0 <= j < mss2.len() && 0 <= i < mss2[j].len() implies *final(#[trigger] mss2[j][i]) == endss2[j][i] by {
                    if j < k {
                        assert(mss2[j] == mss[j]);
                        assert(endss2[j] == endss[j]);
                    }
                }
            }
            k = k + 1;
        }
    }
}

impl<S: Clone + core::fmt::Debug> Default for DeterministicSim<S> {
    /// An empty simulation, as `new` makes it.
    fn default() -> (r: Self)
        ensures
            r.entities_view() == Map::<EntityId, S>::empty(),
            r.system_names() == Seq::<Seq<char>>::empty(),
            r.next_id_view() == 0,
            r.steps() == 0,
    {
        Self::new()
    }
}

} // verus!
