//! Stepping `y' = f(t, y)` with Picard iteration over rational intervals.

use tpt_formal_lab::exact_math::rational::Rational;
use tpt_formal_lab::verified_ode::picard::IntervalFn;
use tpt_formal_lab::verified_ode::solver::OdeSolver;

#[test]
fn exp_growth_contains_e_h() {
    // y' = y, y(0)=1 → y(h) = e^h. Use h = 1/4 = 0.25.
    // e^0.25 ≈ 1.284025; enclose with rationals 1.28 and 1.29.
    let mut solver = OdeSolver::new(
        |_t: &Rational, y: &Rational| y.clone(),
        Rational::from(0),
        Rational::from(1),
    );
    let h = Rational::from_frac(1, 4);
    let (lo, hi) = solver.step(&h);
    let lower = Rational::from_frac(128, 100);
    let upper = Rational::from_frac(129, 100);
    assert!(lo <= lower, "lo={} should be <= 1.28", lo.to_string());
    assert!(upper <= hi, "hi={} should be >= 1.29", hi.to_string());
}

#[test]
fn exp_growth_multistep_contains_e_kh() {
    // After k steps of h, the solution is e^{k h}. Use h = 1/4, three steps → e^{3/4}.
    // e^{0.75} ≈ 2.117; enclose with 2.11 and 2.13.
    let mut solver = OdeSolver::new(
        |_t: &Rational, y: &Rational| y.clone(),
        Rational::from(0),
        Rational::from(1),
    );
    let h = Rational::from_frac(1, 4);
    let traj = solver.solve(3, &h);
    let (lo, hi) = (traj[2].1.clone(), traj[2].2.clone());
    let lower = Rational::from_frac(211, 100);
    let upper = Rational::from_frac(213, 100);
    assert!(lo <= lower, "lo={} should be <= 2.11", lo.to_string());
    assert!(upper <= hi, "hi={} should be >= 2.13", hi.to_string());
}

#[test]
fn enclosure_width_is_nonnegative() {
    let mut solver = OdeSolver::new(
        |_t: &Rational, y: &Rational| y.clone(),
        Rational::from(0),
        Rational::from(1),
    );
    let traj = solver.solve(5, &Rational::from_frac(1, 4));
    for (_, lo, hi) in &traj {
        assert!(lo <= hi);
    }
}

#[test]
fn debug_single() {
    let mut solver = OdeSolver::new(
        |_t: &Rational, y: &Rational| y.clone(),
        Rational::from(0),
        Rational::from(1),
    );
    let (lo, hi) = solver.step(&Rational::from_frac(1, 4));
    println!("DEBUG step h=1/4: lo={} hi={}", lo.to_string(), hi.to_string());
    let h = Rational::from_frac(1, 4);
    let ap = solver.a_priori(&h);
    println!("DEBUG a_priori: lo={} hi={}", ap.lo().to_string(), ap.hi().to_string());
}

// ── Further cases ──────────────────────────────────────────────────────────

/// y' = 2, a constant slope.
struct Const;

impl IntervalFn for Const {
    fn eval(&self, _t: &Rational, _y: &Rational) -> Rational {
        Rational::from(2)
    }
}

#[test]
fn constant_slope_is_exact() {
    // slope 2, first radius 3: the start box [-3, 3] maps to [2, 2], which
    // lies within it.
    let mut solver = OdeSolver::new(Const, Rational::from(0), Rational::from(0));
    let (lo, hi) = solver.step(&Rational::from(1));
    assert_eq!(lo, Rational::from(2));
    assert_eq!(hi, Rational::from(2));
    assert_eq!(solver.t(), &Rational::from(1));
    assert_eq!(solver.y(), Rational::from(2));
}

#[test]
fn first_picard_image_within_the_start_box_is_taken() {
    // y' = y from y = 1 with h = 1/4: the start box is [1/2, 3/2] (radius
    // |1| + 1 = 2), whose image 1 + [1/2, 3/2] / 4 = [9/8, 11/8] lies within it.
    let mut solver = OdeSolver::new(
        |_t: &Rational, y: &Rational| y.clone(),
        Rational::from(0),
        Rational::from(1),
    );
    let (lo, hi) = solver.step(&Rational::from_frac(1, 4));
    assert_eq!(lo, Rational::from_frac(9, 8));
    assert_eq!(hi, Rational::from_frac(11, 8));
    assert_eq!(solver.y_box().lo(), &Rational::from_frac(9, 8));
    assert_eq!(solver.t(), &Rational::from_frac(1, 4));
}

#[test]
fn a_priori_does_not_move_the_solver() {
    let solver = OdeSolver::new(
        |_t: &Rational, y: &Rational| y.clone(),
        Rational::from(0),
        Rational::from(1),
    );
    let b = solver.a_priori(&Rational::from_frac(1, 4));
    assert_eq!(b.lo(), &Rational::from_frac(9, 8));
    assert_eq!(solver.t(), &Rational::from(0));
    assert_eq!(solver.y_box().hi(), &Rational::from(1));
}

#[test]
fn zero_step_keeps_the_state() {
    let mut solver = OdeSolver::new(
        |t: &Rational, _y: &Rational| t.clone(),
        Rational::from(3),
        Rational::from(5),
    );
    let (lo, hi) = solver.step(&Rational::from(0));
    assert_eq!(lo, Rational::from(5));
    assert_eq!(hi, Rational::from(5));
    assert_eq!(solver.t(), &Rational::from(3));
}

#[test]
fn solve_reports_each_time() {
    let mut solver = OdeSolver::new(Const, Rational::from(0), Rational::from(0));
    let traj = solver.solve(3, &Rational::from_frac(1, 2));
    assert_eq!(traj.len(), 3);
    assert_eq!(traj[0].0, Rational::from_frac(1, 2));
    assert_eq!(traj[2].0, Rational::from_frac(3, 2));
    assert_eq!(traj[2].1, Rational::from(3));
    assert_eq!(traj[2].2, Rational::from(3));
}
