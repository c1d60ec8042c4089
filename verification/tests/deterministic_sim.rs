//! Fixed-point arithmetic and the step-based simulation engine.

use std::collections::BTreeMap;
use tpt_formal_lab::deterministic_sim::fixed_point::FixedPoint;
use tpt_formal_lab::deterministic_sim::sim::{DeterministicSim, EntityId};

type Fp = FixedPoint<1_000>;

#[test]
fn addition() {
    let a = Fp::from_raw(750);
    let b = Fp::from_raw(250);
    assert_eq!((a + b).raw(), 1_000);
}

#[test]
fn fixed_point_subtraction() {
    let a = Fp::from_int(2);
    let b = Fp::from_raw(500);
    assert_eq!((a - b).raw(), 1_500);
}

#[test]
fn fixed_point_multiplication() {
    // 2.0 * 3.0 = 6.0
    let a = Fp::from_int(2);
    let b = Fp::from_int(3);
    assert_eq!((a * b).raw(), 6_000);
}

#[test]
fn multiplication_fractional() {
    // 0.5 * 0.5 = 0.25
    let a = Fp::from_raw(500);
    let b = Fp::from_raw(500);
    assert_eq!((a * b).raw(), 250);
}

#[test]
fn fixed_point_division() {
    // 1.0 / 4.0 = 0.25
    let a = Fp::from_int(1);
    let b = Fp::from_int(4);
    assert_eq!((a / b).raw(), 250);
}

#[test]
fn fixed_point_negation() {
    let a = Fp::from_raw(500);
    assert_eq!((-a).raw(), -500);
}

#[test]
fn fixed_point_ordering() {
    assert!(Fp::from_raw(500) < Fp::from_raw(750));
    assert!(Fp::from_int(1) > Fp::from_raw(999));
    assert_eq!(Fp::from_raw(500), Fp::from_raw(500));
}

#[test]
fn display_integer() {
    assert_eq!(Fp::from_int(3).to_string(), "3.000");
}

#[test]
fn display_fractional() {
    assert_eq!(Fp::from_raw(1_500).to_string(), "1.500");
}

#[test]
fn display_negative() {
    assert_eq!(Fp::from_raw(-750).to_string(), "-0.750");
}

#[test]
fn deterministic_across_operations() {
    // The same sequence of operations always gives the same raw bits.
    let a = Fp::from_raw(314_159);
    let b = Fp::from_raw(271_828);
    let result = (a + b) * Fp::from_int(2) - Fp::from_raw(100_000);
    assert_eq!(result.raw(), 1_071_974);
}

#[test]
fn spawn_and_retrieve() {
    let mut sim = DeterministicSim::<Fp>::new();
    let id = sim.spawn(Fp::from_int(42));
    assert_eq!(*sim.get(id).unwrap(), Fp::from_int(42));
}

#[test]
fn despawn() {
    let mut sim = DeterministicSim::<Fp>::new();
    let id = sim.spawn(Fp::from_int(1));
    assert!(sim.despawn(id).is_some());
    assert!(sim.get(id).is_none());
    assert_eq!(sim.entity_count(), 0);
}

#[test]
fn system_runs_on_step() {
    let mut sim = DeterministicSim::<Fp>::new();
    let id = sim.spawn(Fp::from_int(10));
    sim.add_system("double", |entities: &mut BTreeMap<EntityId, Fp>| {
        for v in entities.values_mut() {
            *v = *v + *v;
        }
    });
    sim.step();
    assert_eq!(*sim.get(id).unwrap(), Fp::from_int(20));
}

#[test]
fn systems_run_in_name_order() {
    // "a_first" runs before "b_second" alphabetically.
    // a_first: set to 10; b_second: add 1 → final = 11
    let mut sim = DeterministicSim::<Fp>::new();
    let id = sim.spawn(Fp::zero());
    sim.add_system("b_second", |entities: &mut BTreeMap<EntityId, Fp>| {
        for v in entities.values_mut() {
            *v = *v + Fp::from_int(1);
        }
    });
    sim.add_system("a_first", |entities: &mut BTreeMap<EntityId, Fp>| {
        for v in entities.values_mut() {
            *v = Fp::from_int(10);
        }
    });
    sim.step();
    assert_eq!(*sim.get(id).unwrap(), Fp::from_int(11));
}

#[test]
fn iteration_order_is_sorted() {
    let mut sim = DeterministicSim::<Fp>::new();
    let id0 = sim.spawn(Fp::from_int(0));
    let id1 = sim.spawn(Fp::from_int(1));
    let id2 = sim.spawn(Fp::from_int(2));
    let ids: Vec<EntityId> = sim.iter().into_iter().map(|(id, _)| id).collect();
    assert_eq!(ids, vec![id0, id1, id2]);
}

fn run_sim() -> Fp {
    let mut sim = DeterministicSim::<Fp>::new();
    let id = sim.spawn(Fp::from_raw(314));
    sim.add_system("scale", |entities: &mut BTreeMap<EntityId, Fp>| {
        for v in entities.values_mut() {
            *v = *v + Fp::from_raw(100);
        }
    });
    sim.step_n(5);
    *sim.get(id).unwrap()
}

#[test]
fn identical_runs_produce_identical_output() {
    let a = run_sim();
    let b = run_sim();
    assert_eq!(a, b);
    assert_eq!(a.raw(), 814);
}

#[test]
fn step_count_tracked() {
    let mut sim = DeterministicSim::<Fp>::new();
    sim.step_n(7);
    assert_eq!(sim.step_count(), 7);
}

// ── Further cases ──────────────────────────────────────────────────────────

#[test]
fn fixed_point_predicates_and_constants() {
    assert!(Fp::zero().is_zero());
    assert_eq!(Fp::one().raw(), 1_000);
    assert!(Fp::from_raw(-1).is_negative());
    assert!(Fp::from_raw(1).is_positive());
    assert_eq!(Fp::from_raw(-1_250).abs().raw(), 1_250);
    assert_eq!(Fp::from_raw(5).to_string(), "0.005");
    assert_eq!(FixedPoint::<1>::from_raw(-7).to_string(), "-7.0");
    assert_eq!(FixedPoint::<100>::from_raw(-5).to_string(), "-0.05");
}

#[test]
fn fixed_point_truncates_towards_zero() {
    // -0.001 * 0.5 = -0.0005, truncated to 0; -1 / 3 = -0.333...
    assert_eq!((Fp::from_raw(-1) * Fp::from_raw(500)).raw(), 0);
    assert_eq!((Fp::from_int(-1) / Fp::from_int(3)).raw(), -333);
}

#[test]
fn get_mut_changes_one_entity() {
    let mut sim = DeterministicSim::<Fp>::new();
    let a = sim.spawn(Fp::from_int(1));
    let b = sim.spawn(Fp::from_int(2));
    *sim.get_mut(a).unwrap() = Fp::from_int(5);
    assert_eq!(*sim.get(a).unwrap(), Fp::from_int(5));
    assert_eq!(*sim.get(b).unwrap(), Fp::from_int(2));
    assert!(sim.get_mut(99).is_none());
}

#[test]
fn ids_are_never_reused() {
    let mut sim = DeterministicSim::<Fp>::default();
    let a = sim.spawn(Fp::zero());
    assert!(sim.despawn(a).is_some());
    let b = sim.spawn(Fp::zero());
    assert_eq!(a, 0);
    assert_eq!(b, 1);
    assert!(sim.despawn(a).is_none());
}

#[test]
fn replacing_and_removing_systems() {
    let mut sim = DeterministicSim::<Fp>::new();
    let id = sim.spawn(Fp::zero());
    sim.add_system("inc", |entities: &mut BTreeMap<EntityId, Fp>| {
        for v in entities.values_mut() {
            *v = *v + Fp::from_int(1);
        }
    });
    sim.add_system("inc", |entities: &mut BTreeMap<EntityId, Fp>| {
        for v in entities.values_mut() {
            *v = *v + Fp::from_int(2);
        }
    });
    sim.step();
    assert_eq!(*sim.get(id).unwrap(), Fp::from_int(2));
    assert!(sim.remove_system("inc"));
    assert!(!sim.remove_system("inc"));
    sim.step();
    assert_eq!(*sim.get(id).unwrap(), Fp::from_int(2));
    assert_eq!(sim.step_count(), 2);
}

fn sim_with(names: &[&str]) -> Fp {
    let mut sim = DeterministicSim::<Fp>::new();
    let id = sim.spawn(Fp::from_int(1));
    for name in names {
        match *name {
            "double" => sim.add_system(name, |entities: &mut BTreeMap<EntityId, Fp>| {
                for v in entities.values_mut() {
                    *v = *v + *v;
                }
            }),
            _ => sim.add_system(name, |entities: &mut BTreeMap<EntityId, Fp>| {
                for v in entities.values_mut() {
                    *v = *v + Fp::from_int(3);
                }
            }),
        }
    }
    sim.step();
    *sim.get(id).unwrap()
}

#[test]
fn registration_order_does_not_matter() {
    // "double" runs before "plus_three" either way: (1 * 2) + 3 = 5.
    assert_eq!(sim_with(&["double", "plus_three"]), Fp::from_int(5));
    assert_eq!(sim_with(&["plus_three", "double"]), Fp::from_int(5));
}

#[test]
fn one_is_identity_and_signs_are_exclusive() {
    let x = Fp::from_raw(-2_345);
    assert_eq!(x * Fp::one(), x);
    assert_eq!(Fp::one() * x, x);
    for raw in [-5i64, 0, 7] {
        let v = Fp::from_raw(raw);
        let n = [v.is_positive(), v.is_negative(), v.is_zero()]
            .iter()
            .filter(|b| **b)
            .count();
        assert_eq!(n, 1);
    }
}

#[test]
fn order_follows_raw_values() {
    let raws = [-1_000i64, -1, 0, 1, 999, 1_000];
    for a in raws {
        for b in raws {
            assert_eq!(Fp::from_raw(a) < Fp::from_raw(b), a < b);
            assert_eq!(Fp::from_raw(a) == Fp::from_raw(b), a == b);
            assert_eq!(Fp::from_raw(a) <= Fp::from_raw(b), a <= b);
        }
    }
}

#[test]
fn entity_count_after_steps_with_key_preserving_system() {
    let mut sim = DeterministicSim::<Fp>::new();
    sim.spawn(Fp::from_int(1));
    sim.spawn(Fp::from_int(2));
    sim.add_system("inc", |entities: &mut BTreeMap<EntityId, Fp>| {
        for v in entities.values_mut() {
            *v = *v + Fp::one();
        }
    });
    sim.step_n(3);
    let id = sim.spawn(Fp::from_int(5));
    assert_eq!(id, 2);
    assert_eq!(sim.entity_count(), 3);
    assert_eq!(*sim.get(0).unwrap(), Fp::from_int(4));
}

#[test]
fn removed_system_no_longer_runs() {
    let mut sim = DeterministicSim::<Fp>::new();
    let id = sim.spawn(Fp::from_int(0));
    sim.add_system("inc", |entities: &mut BTreeMap<EntityId, Fp>| {
        for v in entities.values_mut() {
            *v = *v + Fp::one();
        }
    });
    sim.step();
    assert!(sim.remove_system("inc"));
    assert!(!sim.remove_system("inc"));
    sim.step();
    assert_eq!(*sim.get(id).unwrap(), Fp::from_int(1));
    assert_eq!(sim.step_count(), 2);
}
