//! Building typed propositions and terms and writing them out.

use tpt_formal_lab::proof_ast::builder::AstBuilder;
use tpt_formal_lab::proof_ast::expr::{ArithOp, ExprNode};

#[test]
fn term_display() {
    let b = AstBuilder::new();
    let x = b.var_term("x");
    let y = b.int_term(5);
    let t = b.add(x, y);
    assert_eq!(t.to_string(), "(x + 5)");
}

#[test]
fn formula_display() {
    let b = AstBuilder::new();
    let p = b.var_formula("P");
    let q = b.var_formula("Q");
    let f = b.implies(p, q);
    assert_eq!(f.to_string(), "(P → Q)");
}

#[test]
fn forall_display() {
    let b = AstBuilder::new();
    let x = b.var_term("x");
    let body = b.gt(x, b.int_term(0));
    let f = b.forall_("x", body);
    assert_eq!(f.to_string(), "∀x. (x > 0)");
}

#[test]
fn nested_formula() {
    let b = AstBuilder::new();
    let x = b.var_term("x");
    let zero = b.int_term(0);
    let pos = b.gt(x.clone(), zero.clone());
    let sq = b.mul(x.clone(), x);
    let sq_pos = b.gt(sq, zero);
    let body = b.implies(pos, sq_pos);
    let f = b.forall_("x", body);
    assert_eq!(f.to_string(), "∀x. ((x > 0) → ((x * x) > 0))");
}

#[test]
fn not_and_or() {
    let b = AstBuilder::new();
    let p = b.var_formula("P");
    let q = b.var_formula("Q");
    let not_p = b.not(p);
    let f = b.or(not_p, q);
    assert_eq!(f.to_string(), "(¬P ∨ Q)");
}

// ── Further cases ──────────────────────────────────────────────────────────

#[test]
fn every_connective_and_relation_is_written() {
    let b = AstBuilder::new();
    let x = || b.var_term("x");
    let one = || b.int_term(1);
    assert_eq!(b.sub(x(), one()).to_string(), "(x - 1)");
    assert_eq!(b.div(x(), one()).to_string(), "(x / 1)");
    assert_eq!(b.neg_term(x()).to_string(), "(-x)");
    assert_eq!(b.int_term(-7).to_string(), "-7");
    assert_eq!(b.eq(x(), one()).to_string(), "(x = 1)");
    assert_eq!(b.ne(x(), one()).to_string(), "(x ≠ 1)");
    assert_eq!(b.lt(x(), one()).to_string(), "(x < 1)");
    assert_eq!(b.le(x(), one()).to_string(), "(x ≤ 1)");
    assert_eq!(b.ge(x(), one()).to_string(), "(x ≥ 1)");
    assert_eq!(b.and(b.tru(), b.fals()).to_string(), "(true ∧ false)");
    assert_eq!(b.iff(b.tru(), b.fals()).to_string(), "(true ↔ false)");
    assert_eq!(b.exists_("y", b.tru()).to_string(), "∃y. true");
}

#[test]
fn node_exposes_the_tree() {
    let b = AstBuilder::new();
    let t = b.add(b.var_term("x"), b.int_term(2));
    match t.node() {
        ExprNode::BinArith(ArithOp::Add, l, r) => {
            assert!(matches!(**l, ExprNode::Var(ref n) if n == "x"));
            assert!(matches!(**r, ExprNode::IntLit(2)));
        }
        _ => panic!("expected an addition"),
    }
}
