//! Deterministic generation, property checking and shrinking.

use tpt_formal_lab::det_proptest::check::check;
use tpt_formal_lab::det_proptest::rng::Xorshift64;
use tpt_formal_lab::det_proptest::strategy::{AnyBool, IntRange, Seed, Strategy};

#[test]
fn same_seed_same_sequence() {
    let a: Vec<i32> = {
        let mut rng = Xorshift64::new(123);
        let strat = IntRange::<i32>::new(0, 1000);
        (0..10).map(|_| strat.generate(&mut rng)).collect()
    };
    let b: Vec<i32> = {
        let mut rng = Xorshift64::new(123);
        let strat = IntRange::<i32>::new(0, 1000);
        (0..10).map(|_| strat.generate(&mut rng)).collect()
    };
    assert_eq!(a, b);
}

#[test]
fn different_seed_different_sequence() {
    let a: Vec<i32> = {
        let mut rng = Xorshift64::new(1);
        let strat = IntRange::<i32>::new(0, 1_000_000);
        (0..10).map(|_| strat.generate(&mut rng)).collect()
    };
    let b: Vec<i32> = {
        let mut rng = Xorshift64::new(2);
        let strat = IntRange::<i32>::new(0, 1_000_000);
        (0..10).map(|_| strat.generate(&mut rng)).collect()
    };
    assert_ne!(a, b);
}

#[test]
fn passing_property_runs_all_iterations() {
    let result = check(200, Seed(42), IntRange::<i32>::new(-50, 50), |x| {
        *x >= -50 && *x < 50
    });
    assert!(result.is_ok());
}

#[test]
fn anybool_generates_both_values_over_many_runs() {
    let mut saw_true = false;
    let mut saw_false = false;
    let mut rng = Xorshift64::new(7);
    let strat = AnyBool;
    for _ in 0..100 {
        if strat.generate(&mut rng) {
            saw_true = true;
        } else {
            saw_false = true;
        }
    }
    assert!(saw_true && saw_false);
}

#[test]
fn known_failure_shrinks_to_minimal() {
    // Property: x < 50. Fails for x in [50, 100). Minimal counterexample is 50.
    let result = check(500, Seed(3), IntRange::<i32>::new(0, 100), |x| *x < 50);
    assert!(result.is_err());
    let ce = result.unwrap_err();
    assert_eq!(ce.minimal, 50);
    assert!((ce.original) >= 50);
}

#[test]
fn known_failure_shrinks_to_minimal_signed() {
    // Property: x != 4. Minimal falsifying value is exactly 4.
    let result = check(500, Seed(11), IntRange::<i8>::new(-10, 10), |x| *x != 4);
    assert!(result.is_err());
    let ce = result.unwrap_err();
    assert_eq!(ce.minimal, 4);
}

#[test]
fn shrinking_is_deterministic() {
    let a = check(500, Seed(99), IntRange::<i32>::new(0, 1000), |x| *x < 777)
        .unwrap_err()
        .minimal;
    let b = check(500, Seed(99), IntRange::<i32>::new(0, 1000), |x| *x < 777)
        .unwrap_err()
        .minimal;
    assert_eq!(a, b);
    assert_eq!(a, 777);
}

// ── Further cases ──────────────────────────────────────────────────────────

#[test]
fn xorshift_first_outputs() {
    // x ^= x << 13; x ^= x >> 7; x ^= x << 17, starting from 1.
    let mut rng = Xorshift64::new(1);
    let first = rng.next_u64();
    let mut x: u64 = 1;
    x ^= x << 13;
    x ^= x >> 7;
    x ^= x << 17;
    assert_eq!(first, x);
    assert_ne!(rng.next_u64(), 0);
}

#[test]
fn zero_seed_still_generates() {
    let mut rng = Xorshift64::new(0);
    let a = rng.next_u64();
    let b = rng.next_u64();
    assert_ne!(a, 0);
    assert_ne!(a, b);
}

#[test]
fn next_u32_is_the_high_half() {
    let mut a = Xorshift64::new(5);
    let mut b = Xorshift64::new(5);
    assert_eq!(a.next_u32() as u64, b.next_u64() >> 32);
}

#[test]
fn range_values_stay_in_range() {
    let mut rng = Xorshift64::new(9);
    let s = IntRange::<i64>::new(-3, 4);
    for _ in 0..200 {
        let v = s.generate(&mut rng);
        assert!((-3..4).contains(&v));
    }
    let u = IntRange::<u8>::new(250, 255);
    for _ in 0..50 {
        let v = u.generate(&mut rng);
        assert!((250..255).contains(&v));
    }
}

#[test]
fn shrink_space_of_a_range() {
    let s = IntRange::<i8>::new(-10, 10);
    let (lo, hi) = s.shrink_bounds().unwrap();
    assert_eq!(hi - lo, 20);
    assert_eq!(s.at_index(lo), Some(-10));
    assert_eq!(s.at_index(hi - 1), Some(9));
    assert_eq!(AnyBool.shrink_bounds(), None);
    assert_eq!(Seed::default().0, 0x1234_5678_9ABC_DEF1);
}

#[test]
fn zero_iterations_always_pass() {
    let result = check(0, Seed(1), IntRange::<i32>::new(0, 10), |_| false);
    assert!(result.is_ok());
}
