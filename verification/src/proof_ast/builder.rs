//! A builder of well-kinded AST expressions.
use vstd::prelude::*;
use crate::proof_ast::expr::{ArithOp, CmpOp, Expr, ExprNode};
use crate::proof_ast::kinds::{PropKind, TermKind};

verus! {

/// A logical proposition: an expression of kind `PropKind`.
pub type Formula = Expr<PropKind>;

/// A mathematical term: an expression of kind `TermKind`.
pub type Term = Expr<TermKind>;

/// Builds well-kinded AST expressions: terms from terms, formulas from
/// formulas, and comparisons of terms as formulas. All state lives in the
/// expressions it returns.
#[derive(Default)]
pub struct AstBuilder;

impl AstBuilder {
    /// A builder.
    pub fn new() -> (r: Self)
        ensures
            r == AstBuilder,
    {
        AstBuilder
    }

    /// The term variable `name`.
    pub fn var_term(&self, name: &str) -> (r: Term)
        ensures
            r.root() matches ExprNode::Var(n) && n@ == name@,
    {
        Expr::new(ExprNode::Var(name.to_owned()))
    }

    /// The integer literal `n`.
    pub fn int_term(&self, n: i64) -> (r: Term)
        ensures
            r.root() == ExprNode::IntLit(n),
    {
        Expr::new(ExprNode::IntLit(n))
    }

    /// `lhs + rhs`.
    pub fn add(&self, lhs: Term, rhs: Term) -> (r: Term)
        ensures
            r.root() matches ExprNode::BinArith(op, l, rr) && op == ArithOp::Add && *l == lhs.root()
                && *rr == rhs.root(),
    {
        Expr::new(ExprNode::BinArith(ArithOp::Add, lhs.into_node(), rhs.into_node()))
    }

    /// `lhs - rhs`.
    pub fn sub(&self, lhs: Term, rhs: Term) -> (r: Term)
        ensures
            r.root() matches ExprNode::BinArith(op, l, rr) && op == ArithOp::Sub && *l == lhs.root()
                && *rr == rhs.root(),
    {
        Expr::new(ExprNode::BinArith(ArithOp::Sub, lhs.into_node(), rhs.into_node()))
    }

    /// `lhs * rhs`.
    pub fn mul(&self, lhs: Term, rhs: Term) -> (r: Term)
        ensures
            r.root() matches ExprNode::BinArith(op, l, rr) && op == ArithOp::Mul && *l == lhs.root()
                && *rr == rhs.root(),
    {
        Expr::new(ExprNode::BinArith(ArithOp::Mul, lhs.into_node(), rhs.into_node()))
    }

    /// `lhs / rhs`.
    pub fn div(&self, lhs: Term, rhs: Term) -> (r: Term)
        ensures
            r.root() matches ExprNode::BinArith(op, l, rr) && op == ArithOp::Div && *l == lhs.root()
                && *rr == rhs.root(),
    {
        Expr::new(ExprNode::BinArith(ArithOp::Div, lhs.into_node(), rhs.into_node()))
    }

    /// The negated term `-e`.
    pub fn neg_term(&self, e: Term) -> (r: Term)
        ensures
            r.root() matches ExprNode::Neg(x) && *x == e.root(),
    {
        Expr::new(ExprNode::Neg(e.into_node()))
    }

    /// The propositional variable `name`.
    pub fn var_formula(&self, name: &str) -> (r: Formula)
        ensures
            r.root() matches ExprNode::Var(n) && n@ == name@,
    {
        Expr::new(ExprNode::Var(name.to_owned()))
    }

    /// The formula `true`.
    pub fn tru(&self) -> (r: Formula)
        ensures
            r.root() == ExprNode::BoolLit(true),
    {
        Expr::new(ExprNode::BoolLit(true))
    }

    /// The formula `false`.
    pub fn fals(&self) -> (r: Formula)
        ensures
            r.root() == ExprNode::BoolLit(false),
    {
        Expr::new(ExprNode::BoolLit(false))
    }

    /// `lhs ∧ rhs`.
    pub fn and(&self, lhs: Formula, rhs: Formula) -> (r: Formula)
        ensures
            r.root() matches ExprNode::And(l, rr) && *l == lhs.root() && *rr == rhs.root(),
    {
        Expr::new(ExprNode::And(lhs.into_node(), rhs.into_node()))
    }

    /// `lhs ∨ rhs`.
    pub fn or(&self, lhs: Formula, rhs: Formula) -> (r: Formula)
        ensures
            r.root() matches ExprNode::Or(l, rr) && *l == lhs.root() && *rr == rhs.root(),
    {
        Expr::new(ExprNode::Or(lhs.into_node(), rhs.into_node()))
    }

    /// `lhs → rhs`.
    pub fn implies(&self, lhs: Formula, rhs: Formula) -> (r: Formula)
        ensures
            r.root() matches ExprNode::Implies(l, rr) && *l == lhs.root() && *rr == rhs.root(),
    {
        Expr::new(ExprNode::Implies(lhs.into_node(), rhs.into_node()))
    }

    /// `lhs ↔ rhs`.
    pub fn iff(&self, lhs: Formula, rhs: Formula) -> (r: Formula)
        ensures
            r.root() matches ExprNode::Iff(l, rr) && *l == lhs.root() && *rr == rhs.root(),
    {
        Expr::new(ExprNode::Iff(lhs.into_node(), rhs.into_node()))
    }

    /// `¬e`.
    pub fn not(&self, e: Formula) -> (r: Formula)
        ensures
            r.root() matches ExprNode::Not(x) && *x == e.root(),
    {
        Expr::new(ExprNode::Not(e.into_node()))
    }

    /// `∀var. body`.
    pub fn forall_(&self, var: &str, body: Formula) -> (r: Formula)
        ensures
            r.root() matches ExprNode::Forall(v, b) && v@ == var@ && *b == body.root(),
    {
        Expr::new(ExprNode::Forall(var.to_owned(), body.into_node()))
    }

    /// `∃var. body`.
    pub fn exists_(&self, var: &str, body: Formula) -> (r: Formula)
        ensures
            r.root() matches ExprNode::Exists(v, b) && v@ == var@ && *b == body.root(),
    {
        Expr::new(ExprNode::Exists(var.to_owned(), body.into_node()))
    }

    /// `lhs = rhs`.
    pub fn eq(&self, lhs: Term, rhs: Term) -> (r: Formula)
        ensures
            r.root() matches ExprNode::Cmp(op, l, rr) && op == CmpOp::Eq && *l == lhs.root()
                && *rr == rhs.root(),
    {
        Expr::new(ExprNode::Cmp(CmpOp::Eq, lhs.into_node(), rhs.into_node()))
    }

    /// `lhs ≠ rhs`.
    pub fn ne(&self, lhs: Term, rhs: Term) -> (r: Formula)
        ensures
            r.root() matches ExprNode::Cmp(op, l, rr) && op == CmpOp::Ne && *l == lhs.root()
                && *rr == rhs.root(),
    {
        Expr::new(ExprNode::Cmp(CmpOp::Ne, lhs.into_node(), rhs.into_node()))
    }

    /// `lhs < rhs`.
    pub fn lt(&self, lhs: Term, rhs: Term) -> (r: Formula)
        ensures
            r.root() matches ExprNode::Cmp(op, l, rr) && op == CmpOp::Lt && *l == lhs.root()
                && *rr == rhs.root(),
    {
        Expr::new(ExprNode::Cmp(CmpOp::Lt, lhs.into_node(), rhs.into_node()))
    }

    /// `lhs ≤ rhs`.
    pub fn le(&self, lhs: Term, rhs: Term) -> (r: Formula)
        ensures
            r.root() matches ExprNode::Cmp(op, l, rr) && op == CmpOp::Le && *l == lhs.root()
                && *rr == rhs.root(),
    {
        Expr::new(ExprNode::Cmp(CmpOp::Le, lhs.into_node(), rhs.into_node()))
    }

    /// `lhs > rhs`.
    pub fn gt(&self, lhs: Term, rhs: Term) -> (r: Formula)
        ensures
            r.root() matches ExprNode::Cmp(op, l, rr) && op == CmpOp::Gt && *l == lhs.root()
                && *rr == rhs.root(),
    {
        Expr::new(ExprNode::Cmp(CmpOp::Gt, lhs.into_node(), rhs.into_node()))
    }

    /// `lhs ≥ rhs`.
    pub fn ge(&self, lhs: Term, rhs: Term) -> (r: Formula)
        ensures
            r.root() matches ExprNode::Cmp(op, l, rr) && op == CmpOp::Ge && *l == lhs.root()
                && *rr == rhs.root(),
    {
        Expr::new(ExprNode::Cmp(CmpOp::Ge, lhs.into_node(), rhs.into_node()))
    }
}

} // verus!
