//! SMT-LIB2 emission, problem building and model reading.

use tpt_formal_lab::smt::counter_example::{CeValue, CounterExample};
use tpt_formal_lab::smt::expr::Expr;
use tpt_formal_lab::smt::smtlib2::emit_smtlib2;
use tpt_formal_lab::smt::solver::SmtSolver;
use tpt_formal_lab::smt::sort::Sort;

#[test]
fn parse_basic_ints() {
    let model = "(model\n  (define-fun x () Int 3)\n  (define-fun y () Int 7)\n)";
    let ce = CounterExample::parse(model);
    assert_eq!(ce.get_int("x"), Some(3));
    assert_eq!(ce.get_int("y"), Some(7));
}

#[test]
fn parse_negative_int() {
    let model = "(model\n  (define-fun x () Int (- 5))\n)";
    let ce = CounterExample::parse(model);
    assert_eq!(ce.get_int("x"), Some(-5));
}

#[test]
fn parse_bool() {
    let model = "(model\n  (define-fun flag () Bool true)\n)";
    let ce = CounterExample::parse(model);
    assert_eq!(ce.get_bool("flag"), Some(true));
}

#[test]
fn missing_variable_returns_none() {
    let ce = CounterExample::new();
    assert_eq!(ce.get_int("nonexistent"), None);
}

#[test]
fn names_iterator() {
    let model = "(model\n  (define-fun a () Int 1)\n  (define-fun b () Int 2)\n)";
    let ce = CounterExample::parse(model);
    let mut names: Vec<String> = ce.names();
    names.sort();
    assert_eq!(names, vec!["a", "b"]);
}

#[test]
fn sort_display() {
    assert_eq!(Sort::Bool.to_smtlib2(), "Bool");
    assert_eq!(Sort::Int.to_smtlib2(), "Int");
    assert_eq!(Sort::Real.to_smtlib2(), "Real");
    assert_eq!(Sort::BitVec(8).to_smtlib2(), "(_ BitVec 8)");
    let arr = Sort::Array(Box::new(Sort::Int), Box::new(Sort::Bool));
    assert_eq!(arr.to_smtlib2(), "(Array Int Bool)");
}

#[test]
fn bool_literals() {
    assert_eq!(emit_smtlib2(&Expr::bool(true)), "true");
    assert_eq!(emit_smtlib2(&Expr::bool(false)), "false");
}

#[test]
fn int_literal_positive() {
    assert_eq!(emit_smtlib2(&Expr::int_(42)), "42");
}

#[test]
fn int_literal_negative() {
    assert_eq!(emit_smtlib2(&Expr::int_(-5)), "(- 5)");
}

#[test]
fn variable() {
    assert_eq!(emit_smtlib2(&Expr::var("x", Sort::Int)), "x");
}

#[test]
fn not() {
    let e = Expr::not(Expr::bool(true));
    assert_eq!(emit_smtlib2(&e), "(not true)");
}

#[test]
fn and_two() {
    let e = Expr::and(vec![Expr::bool(true), Expr::bool(false)]);
    assert_eq!(emit_smtlib2(&e), "(and true false)");
}

#[test]
fn gt() {
    let x = Expr::var("x", Sort::Int);
    let e = Expr::gt(x, Expr::int_(0));
    assert_eq!(emit_smtlib2(&e), "(> x 0)");
}

#[test]
fn add() {
    let x = Expr::var("x", Sort::Int);
    let y = Expr::var("y", Sort::Int);
    let e = Expr::add(x, y);
    assert_eq!(emit_smtlib2(&e), "(+ x y)");
}

#[test]
fn forall_() {
    let body = Expr::ge(Expr::var("x", Sort::Int), Expr::int_(0));
    let e = Expr::forall_(vec![("x".into(), Sort::Int)], body);
    assert_eq!(emit_smtlib2(&e), "(forall ((x Int)) (>= x 0))");
}

#[test]
fn exists_() {
    let body = Expr::eq(Expr::var("x", Sort::Int), Expr::int_(5));
    let e = Expr::exists_(vec![("x".into(), Sort::Int)], body);
    assert_eq!(emit_smtlib2(&e), "(exists ((x Int)) (= x 5))");
}

#[test]
fn ite() {
    let cond = Expr::gt(Expr::var("x", Sort::Int), Expr::int_(0));
    let e = Expr::ite(cond, Expr::int_(1), Expr::int_(-1));
    assert_eq!(emit_smtlib2(&e), "(ite (> x 0) 1 (- 1))");
}

#[test]
fn bitvec_literal() {
    let e = Expr::bitvec(255, 8);
    assert_eq!(emit_smtlib2(&e), "(_ bv255 8)");
}

#[test]
fn empty_with_check() {
    let s = SmtSolver::new();
    assert_eq!(s.emit_check(), "(check-sat)\n(get-model)\n");
}

#[test]
fn declare_and_assert() {
    let mut s = SmtSolver::new();
    s.declare_const("x", Sort::Int);
    s.assert_(Expr::gt(Expr::var("x", Sort::Int), Expr::int_(0)));
    let out = s.emit_smtlib2();
    assert!(out.contains("(declare-const x Int)"), "missing declaration");
    assert!(out.contains("(assert (> x 0))"), "missing assertion");
}

#[test]
fn logic_prefix() {
    let mut s = SmtSolver::new();
    s.set_logic("QF_LIA");
    let out = s.emit_check();
    assert!(out.starts_with("(set-logic QF_LIA)\n"));
}

#[test]
fn full_problem() {
    let mut s = SmtSolver::new();
    s.set_logic("QF_LIA");
    s.declare_const("x", Sort::Int);
    s.declare_const("y", Sort::Int);
    s.assert_(Expr::gt(Expr::var("x", Sort::Int), Expr::int_(0)));
    s.assert_(Expr::gt(Expr::var("y", Sort::Int), Expr::int_(0)));
    s.assert_(Expr::eq(
        Expr::add(Expr::var("x", Sort::Int), Expr::var("y", Sort::Int)),
        Expr::int_(10),
    ));
    let out = s.emit_check();
    assert!(out.contains("(declare-const x Int)"));
    assert!(out.contains("(declare-const y Int)"));
    assert!(out.contains("(assert (> x 0))"));
    assert!(out.contains("(assert (+ x y))") || out.contains("(assert (= (+ x y) 10))"));
    assert!(out.ends_with("(check-sat)\n(get-model)\n"));
}

// ── Further cases ──────────────────────────────────────────────────────────

#[test]
fn emission_of_every_operator() {
    let x = || Expr::var("x", Sort::Int);
    assert_eq!(emit_smtlib2(&Expr::or(vec![Expr::bool(true), Expr::bool(false)])), "(or true false)");
    assert_eq!(emit_smtlib2(&Expr::implies(Expr::bool(true), Expr::bool(false))), "(=> true false)");
    assert_eq!(emit_smtlib2(&Expr::iff(Expr::bool(true), Expr::bool(false))), "(= true false)");
    assert_eq!(emit_smtlib2(&Expr::distinct(vec![x(), Expr::int_(1)])), "(distinct x 1)");
    assert_eq!(emit_smtlib2(&Expr::lt(x(), Expr::int_(1))), "(< x 1)");
    assert_eq!(emit_smtlib2(&Expr::le(x(), Expr::int_(1))), "(<= x 1)");
    assert_eq!(emit_smtlib2(&Expr::sub(x(), Expr::int_(1))), "(- x 1)");
    assert_eq!(emit_smtlib2(&Expr::mul(x(), Expr::int_(2))), "(* x 2)");
    assert_eq!(emit_smtlib2(&Expr::div(x(), Expr::int_(2))), "(div x 2)");
    let r = || Expr::var("r", Sort::Real);
    assert_eq!(emit_smtlib2(&Expr::div(r(), Expr::real_(2, 1))), "(/ r 2.0)");
    assert_eq!(emit_smtlib2(&Expr::div(x(), Expr::real_(2, 1))), "(/ x 2.0)");
    assert_eq!(
        emit_smtlib2(&Expr::div(Expr::add(x(), Expr::int_(1)), Expr::neg(x()))),
        "(div (+ x 1) (- x))"
    );
    assert_eq!(emit_smtlib2(&Expr::modulo(x(), Expr::int_(2))), "(mod x 2)");
    assert_eq!(emit_smtlib2(&Expr::neg(x())), "(- x)");
    assert_eq!(emit_smtlib2(&Expr::abs(x())), "(abs x)");
    assert_eq!(
        emit_smtlib2(&Expr::add_many(vec![x(), Expr::int_(1), Expr::int_(2)])),
        "(+ x 1 2)"
    );
    assert_eq!(emit_smtlib2(&Expr::real_(3, 4)), "(/ 3.0 4.0)");
    assert_eq!(emit_smtlib2(&Expr::real_(-3, 4)), "(/ (- 3.0) 4.0)");
    assert_eq!(emit_smtlib2(&Expr::real_(-3, 1)), "(- 3.0)");
    assert_eq!(emit_smtlib2(&Expr::real_(7, 1)), "7.0");
}

#[test]
fn declare_fun_and_default_solver() {
    let mut s = SmtSolver::default();
    s.declare_fun("f", &[Sort::Int, Sort::Bool], Sort::Real);
    assert_eq!(s.emit_smtlib2(), "(declare-fun f (Int Bool) Real)\n");
}

#[test]
fn model_values_of_every_kind() {
    let model = "(model\n  (define-fun r () Real (/ 1.0 3.0))\n  (define-fun b () Bool false)\n)";
    let ce = CounterExample::parse(model);
    assert_eq!(ce.get_real("r"), Some("(/ 1.0 3.0)"));
    assert_eq!(ce.get_bool("b"), Some(false));
    assert_eq!(ce.get_int("b"), None);
    assert!(matches!(ce.get("b"), Some(CeValue::Bool(false))));
}

#[test]
fn later_definition_replaces_earlier() {
    let model = "(model\n  (define-fun x () Int 1)\n  (define-fun x () Int 2)\n)";
    let ce = CounterExample::parse(model);
    assert_eq!(ce.get_int("x"), Some(2));
    assert_eq!(ce.names(), vec!["x".to_string()]);
}

#[test]
fn lines_of_other_forms_are_skipped() {
    let model = "sat\n(model\n  ; comment\n  (define-fun k () Int 12)\n)";
    let ce = CounterExample::parse(model);
    assert_eq!(ce.names(), vec!["k".to_string()]);
    assert_eq!(ce.get_int("k"), Some(12));
    assert_eq!(ce.clone().get_int("k"), Some(12));
}
