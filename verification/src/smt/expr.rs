//! SMT expressions.
use vstd::prelude::*;
use std::sync::Arc;
use crate::smt::sort::Sort;

verus! {

/// An SMT expression, emitted as SMT-LIB2 text by
/// [`emit_smtlib2`](crate::smt::smtlib2::emit_smtlib2). Build it with the
/// constructor functions; sub-expressions are shared, not copied.
#[derive(Debug, Clone, PartialEq)]
pub struct Expr {
    /// The node at the root of the expression.
    pub inner: Arc<ExprInner>,
}

/// The node at the root of an expression.
#[derive(Debug, PartialEq)]
pub enum ExprInner {
    /// A boolean literal.
    BoolLit(bool),
    /// An integer literal.
    IntLit(i64),
    /// A real literal `numerator / denominator`.
    RealLit(i64, u64),
    /// A bit-vector literal: value and width in bits.
    BitVecLit(u64, u32),
    /// A variable with its sort.
    Var(String, Sort),
    /// `(not e)`.
    Not(Expr),
    /// `(and a b ...)`.
    And(Vec<Expr>),
    /// `(or a b ...)`.
    Or(Vec<Expr>),
    /// `(=> a b)`.
    Implies(Expr, Expr),
    /// `(= a b)` on booleans.
    Iff(Expr, Expr),
    /// `(= a b)`.
    Eq(Expr, Expr),
    /// `(distinct a b ...)`.
    Distinct(Vec<Expr>),
    /// `(< a b)`.
    Lt(Expr, Expr),
    /// `(<= a b)`.
    Le(Expr, Expr),
    /// `(> a b)`.
    Gt(Expr, Expr),
    /// `(>= a b)`.
    Ge(Expr, Expr),
    /// `(+ a b ...)`.
    Add(Vec<Expr>),
    /// `(- a b)`.
    Sub(Expr, Expr),
    /// `(* a b ...)`.
    Mul(Vec<Expr>),
    /// `(/ a b)`.
    Div(Expr, Expr),
    /// `(- e)`.
    Neg(Expr),
    /// `(mod a b)`.
    Mod(Expr, Expr),
    /// `(abs e)`.
    Abs(Expr),
    /// `(forall ((x S) ...) body)`.
    Forall(Vec<(String, Sort)>, Expr),
    /// `(exists ((x S) ...) body)`.
    Exists(Vec<(String, Sort)>, Expr),
    /// `(ite c t e)`.
    Ite(Expr, Expr, Expr),
}

impl Expr {
    /// The root node.
    pub open spec fn node(self) -> ExprInner {
        *self.inner
    }

    fn make(inner: ExprInner) -> (r: Self)
        ensures
            r.node() == inner,
    {
        Expr { inner: Arc::new(inner) }
    }

    /// The boolean literal `b`.
    pub fn bool(b: bool) -> (r: Self)
        ensures
            r.node() == ExprInner::BoolLit(b),
    {
        Self::make(ExprInner::BoolLit(b))
    }

    /// The integer literal `n`.
    pub fn int_(n: i64) -> (r: Self)
        ensures
            r.node() == ExprInner::IntLit(n),
    {
        Self::make(ExprInner::IntLit(n))
    }

    /// The real literal `numer / denom`.
    pub fn real_(numer: i64, denom: u64) -> (r: Self)
        ensures
            r.node() == ExprInner::RealLit(numer, denom),
    {
        Self::make(ExprInner::RealLit(numer, denom))
    }

    /// The bit-vector literal `value` of `width` bits.
    pub fn bitvec(value: u64, width: u32) -> (r: Self)
        ensures
            r.node() == ExprInner::BitVecLit(value, width),
    {
        Self::make(ExprInner::BitVecLit(value, width))
    }

    /// The variable `name` of sort `sort`.
    pub fn var(name: &str, sort: Sort) -> (r: Self)
        ensures
            r.node() is Var,
            r.node()->Var_0@ == name@,
            r.node()->Var_1 == sort,
    {
        Self::make(ExprInner::Var(name.to_owned(), sort))
    }

    /// `(not e)`.
    pub fn not(e: Expr) -> (r: Self)
        ensures
            r.node() == ExprInner::Not(e),
    {
        Self::make(ExprInner::Not(e))
    }

    /// `(and a b ...)`.
    pub fn and(args: Vec<Expr>) -> (r: Self)
        ensures
            r.node() == ExprInner::And(args),
    {
        Self::make(ExprInner::And(args))
    }

    /// `(or a b ...)`.
    pub fn or(args: Vec<Expr>) -> (r: Self)
        ensures
            r.node() == ExprInner::Or(args),
    {
        Self::make(ExprInner::Or(args))
    }

    /// `(=> a b)`.
    pub fn implies(a: Expr, b: Expr) -> (r: Self)
        ensures
            r.node() == ExprInner::Implies(a, b),
    {
        Self::make(ExprInner::Implies(a, b))
    }

    /// `(= a b)` on booleans.
    pub fn iff(a: Expr, b: Expr) -> (r: Self)
        ensures
            r.node() == ExprInner::Iff(a, b),
    {
        Self::make(ExprInner::Iff(a, b))
    }

    /// `(= a b)`.
    pub fn eq(a: Expr, b: Expr) -> (r: Self)
        ensures
            r.node() == ExprInner::Eq(a, b),
    {
        Self::make(ExprInner::Eq(a, b))
    }

    /// `(distinct a b ...)`.
    pub fn distinct(args: Vec<Expr>) -> (r: Self)
        ensures
            r.node() == ExprInner::Distinct(args),
    {
        Self::make(ExprInner::Distinct(args))
    }

    /// `(< a b)`.
    pub fn lt(a: Expr, b: Expr) -> (r: Self)
        ensures
            r.node() == ExprInner::Lt(a, b),
    {
        Self::make(ExprInner::Lt(a, b))
    }

    /// `(<= a b)`.
    pub fn le(a: Expr, b: Expr) -> (r: Self)
        ensures
            r.node() == ExprInner::Le(a, b),
    {
        Self::make(ExprInner::Le(a, b))
    }

    /// `(> a b)`.
    pub fn gt(a: Expr, b: Expr) -> (r: Self)
        ensures
            r.node() == ExprInner::Gt(a, b),
    {
        Self::make(ExprInner::Gt(a, b))
    }

    /// `(>= a b)`.
    pub fn ge(a: Expr, b: Expr) -> (r: Self)
        ensures
            r.node() == ExprInner::Ge(a, b),
    {
        Self::make(ExprInner::Ge(a, b))
    }

    /// `(+ a b)`.
    pub fn add(a: Expr, b: Expr) -> (r: Self)
        ensures
            r.node() is Add,
            r.node()->Add_0@ == seq![a, b],
    {
        Self::make(ExprInner::Add(vec![a, b]))
    }

    /// `(+ a b c ...)`.
    pub fn add_many(args: Vec<Expr>) -> (r: Self)
        ensures
            r.node() == ExprInner::Add(args),
    {
        Self::make(ExprInner::Add(args))
    }

    /// `(- a b)`.
    pub fn sub(a: Expr, b: Expr) -> (r: Self)
        ensures
            r.node() == ExprInner::Sub(a, b),
    {
        Self::make(ExprInner::Sub(a, b))
    }

    /// `(* a b)`.
    pub fn mul(a: Expr, b: Expr) -> (r: Self)
        ensures
            r.node() is Mul,
            r.node()->Mul_0@ == seq![a, b],
    {
        Self::make(ExprInner::Mul(vec![a, b]))
    }

    /// Division: `(div a b)` when both operands have sort `Int`, `(/ a b)`
    /// otherwise.
    pub fn div(a: Expr, b: Expr) -> (r: Self)
        ensures
            r.node() == ExprInner::Div(a, b),
    {
        Self::make(ExprInner::Div(a, b))
    }

    /// `(mod a b)`.
    pub fn modulo(a: Expr, b: Expr) -> (r: Self)
        ensures
            r.node() == ExprInner::Mod(a, b),
    {
        Self::make(ExprInner::Mod(a, b))
    }

    /// `(- e)`.
    pub fn neg(e: Expr) -> (r: Self)
        ensures
            r.node() == ExprInner::Neg(e),
    {
        Self::make(ExprInner::Neg(e))
    }

    /// `(abs e)`.
    pub fn abs(e: Expr) -> (r: Self)
        ensures
            r.node() == ExprInner::Abs(e),
    {
        Self::make(ExprInner::Abs(e))
    }

    /// `(forall ((x S) ...) body)`.
    pub fn forall_(vars: Vec<(String, Sort)>, body: Expr) -> (r: Self)
        ensures
            r.node() == ExprInner::Forall(vars, body),
    {
        Self::make(ExprInner::Forall(vars, body))
    }

    /// `(exists ((x S) ...) body)`.
    pub fn exists_(vars: Vec<(String, Sort)>, body: Expr) -> (r: Self)
        ensures
            r.node() == ExprInner::Exists(vars, body),
    {
        Self::make(ExprInner::Exists(vars, body))
    }

    /// `(ite cond then else_)`.
    pub fn ite(cond: Expr, then: Expr, else_: Expr) -> (r: Self)
        ensures
            r.node() == ExprInner::Ite(cond, then, else_),
    {
        Self::make(ExprInner::Ite(cond, then, else_))
    }
}

} // verus!
