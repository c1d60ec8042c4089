//! AST nodes and typed expressions.
use vstd::prelude::*;
use std::marker::PhantomData;
use std::sync::Arc;
use crate::proof_ast::kinds::Kind;
use crate::text::{
    decimal_i64, digits_value, lemma_int_text_reads_back, numeral, push_str, push_string, write_i64,
};

verus! {

/// The content of an AST node, shared between expressions of every kind.
#[derive(Debug, PartialEq)]
pub enum ExprNode {
    /// A named variable.
    Var(String),
    /// An integer literal.
    IntLit(i64),
    /// A boolean literal.
    BoolLit(bool),
    /// Binary arithmetic `(op, lhs, rhs)`.
    BinArith(ArithOp, Arc<ExprNode>, Arc<ExprNode>),
    /// Negation of a term, `-e`.
    Neg(Arc<ExprNode>),
    /// Conjunction `A ∧ B`.
    And(Arc<ExprNode>, Arc<ExprNode>),
    /// Disjunction `A ∨ B`.
    Or(Arc<ExprNode>, Arc<ExprNode>),
    /// Negation `¬A`.
    Not(Arc<ExprNode>),
    /// Implication `A → B`.
    Implies(Arc<ExprNode>, Arc<ExprNode>),
    /// Biconditional `A ↔ B`.
    Iff(Arc<ExprNode>, Arc<ExprNode>),
    /// Comparison `(rel, lhs, rhs)`.
    Cmp(CmpOp, Arc<ExprNode>, Arc<ExprNode>),
    /// Universal quantification `∀ name. body`.
    Forall(String, Arc<ExprNode>),
    /// Existential quantification `∃ name. body`.
    Exists(String, Arc<ExprNode>),
}

/// Binary arithmetic operations.
#[derive(Debug, Clone, PartialEq, Eq, Hash)]
pub enum ArithOp {
    /// Addition.
    Add,
    /// Subtraction.
    Sub,
    /// Multiplication.
    Mul,
    /// Division.
    Div,
}

/// Comparison relations.
#[derive(Debug, Clone, PartialEq, Eq, Hash)]
pub enum CmpOp {
    /// Equal, `=`.
    Eq,
    /// Not equal, `≠`.
    Ne,
    /// Less than, `<`.
    Lt,
    /// Less than or equal, `≤`.
    Le,
    /// Greater than, `>`.
    Gt,
    /// Greater than or equal, `≥`.
    Ge,
}

/// An AST expression of kind `K`. The kind lives only in the type: an
/// `Expr<PropKind>` cannot be passed where an `Expr<TermKind>` is expected.
#[derive(PartialEq)]
pub struct Expr<K: Kind> {
    pub(crate) node: Arc<ExprNode>,
    _kind: PhantomData<K>,
}

/// The symbol of an arithmetic operation.
pub open spec fn arith_symbol(op: ArithOp) -> Seq<char> {
    match op {
        ArithOp::Add => "+"@,
        ArithOp::Sub => "-"@,
        ArithOp::Mul => "*"@,
        ArithOp::Div => "/"@,
    }
}

/// The symbol of a comparison relation.
pub open spec fn relation_symbol(op: CmpOp) -> Seq<char> {
    match op {
        CmpOp::Eq => "="@,
        CmpOp::Ne => "≠"@,
        CmpOp::Lt => "<"@,
        CmpOp::Le => "≤"@,
        CmpOp::Gt => ">"@,
        CmpOp::Ge => "≥"@,
    }
}

/// `(l sym r)`, given the texts of both sides.
pub open spec fn infix_text(l: Seq<char>, sym: Seq<char>, r: Seq<char>) -> Seq<char> {
    "("@ + l + " "@ + sym + " "@ + r + ")"@
}

/// The conventional mathematical text of a node: binary operations in
/// parentheses with their symbol between spaces, `(-e)` for negation, `¬A`,
/// `∀x. A` and `∃x. A`.
pub open spec fn node_text(n: ExprNode) -> Seq<char>
    decreases n,
{
    match n {
        ExprNode::Var(name) => name@,
        ExprNode::IntLit(v) => decimal_i64(v),
        ExprNode::BoolLit(b) => if b {
            "true"@
        } else {
            "false"@
        },
        ExprNode::Neg(e) => "(-"@ + node_text(*e) + ")"@,
        ExprNode::BinArith(op, l, r) => infix_text(node_text(*l), arith_symbol(op), node_text(*r)),
        ExprNode::And(l, r) => infix_text(node_text(*l), "∧"@, node_text(*r)),
        ExprNode::Or(l, r) => infix_text(node_text(*l), "∨"@, node_text(*r)),
        ExprNode::Not(e) => "¬"@ + node_text(*e),
        ExprNode::Implies(l, r) => infix_text(node_text(*l), "→"@, node_text(*r)),
        ExprNode::Iff(l, r) => infix_text(node_text(*l), "↔"@, node_text(*r)),
        ExprNode::Cmp(op, l, r) => infix_text(node_text(*l), relation_symbol(op), node_text(*r)),
        ExprNode::Forall(v, e) => "∀"@ + v@ + ". "@ + node_text(*e),
        ExprNode::Exists(v, e) => "∃"@ + v@ + ". "@ + node_text(*e),
    }
}

/// Appends `(l sym r)`.
fn write_infix(
    l: &ExprNode,
    sym: &str,
    r: &ExprNode,
    out: &mut String,
    Ghost(parent): Ghost<ExprNode>,
)
    requires
        decreases_to!(parent => *l),
        decreases_to!(parent => *r),
    ensures
        final(out)@ == old(out)@ + infix_text(node_text(*l), sym@, node_text(*r)),
    decreases parent, 0nat,
{
    push_str(out, "(");
    write_node(l, out);
    push_str(out, " ");
    push_str(out, sym);
    push_str(out, " ");
    write_node(r, out);
    push_str(out, ")");
    assert(final(out)@ =~= old(out)@ + infix_text(node_text(*l), sym@, node_text(*r)));
}

/// The symbol of an arithmetic operation.
fn arith_sym(op: &ArithOp) -> (r: &'static str)
    ensures
        r@ == arith_symbol(*op),
{
    match op {
        ArithOp::Add => "+",
        ArithOp::Sub => "-",
        ArithOp::Mul => "*",
        ArithOp::Div => "/",
    }
}

/// The symbol of a comparison relation.
fn relation_sym(op: &CmpOp) -> (r: &'static str)
    ensures
        r@ == relation_symbol(*op),
{
    match op {
        CmpOp::Eq => "=",
        CmpOp::Ne => "≠",
        CmpOp::Lt => "<",
        CmpOp::Le => "≤",
        CmpOp::Gt => ">",
        CmpOp::Ge => "≥",
    }
}

/// Appends the text of a node.
fn write_node(n: &ExprNode, out: &mut String)
    ensures
        final(out)@ == old(out)@ + node_text(*n),
    decreases n, 1nat,
{
    let ghost start = out@;
    match n {
        ExprNode::Var(name) => push_string(out, name),
        ExprNode::IntLit(v) => write_i64(out, *v),
        ExprNode::BoolLit(b) => {
            if *b {
                push_str(out, "true");
            } else {
                push_str(out, "false");
            }
        },
        ExprNode::Neg(e) => {
            push_str(out, "(-");
            write_node(e, out);
            push_str(out, ")");
            assert(out@ =~= start + node_text(*n));
        },
        ExprNode::BinArith(op, l, r) => write_infix(l, arith_sym(op), r, out, Ghost(*n)),
        ExprNode::And(l, r) => write_infix(l, "∧", r, out, Ghost(*n)),
        ExprNode::Or(l, r) => write_infix(l, "∨", r, out, Ghost(*n)),
        ExprNode::Not(e) => {
            push_str(out, "¬");
            write_node(e, out);
            assert(out@ =~= start + node_text(*n));
        },
        ExprNode::Implies(l, r) => write_infix(l, "→", r, out, Ghost(*n)),
        ExprNode::Iff(l, r) => write_infix(l, "↔", r, out, Ghost(*n)),
        ExprNode::Cmp(op, l, r) => write_infix(l, relation_sym(op), r, out, Ghost(*n)),
        ExprNode::Forall(v, e) => {
            push_str(out, "∀");
            push_string(out, v);
            push_str(out, ". ");
            write_node(e, out);
            assert(out@ =~= start + node_text(*n));
        },
        ExprNode::Exists(v, e) => {
            push_str(out, "∃");
            push_string(out, v);
            push_str(out, ". ");
            write_node(e, out);
            assert(out@ =~= start + node_text(*n));
        },
    }
}

impl<K: Kind> Expr<K> {
    /// The root node.
    pub closed spec fn root(self) -> ExprNode {
        *self.node
    }

    /// An expression of kind `K` whose root is `node`.
    pub(crate) fn new(node: ExprNode) -> (r: Self)
        ensures
            r.root() == node,
    {
        Expr { node: Arc::new(node), _kind: PhantomData }
    }

    /// The shared handle on the root node.
    pub(crate) fn into_node(self) -> (r: Arc<ExprNode>)
        ensures
            *r == self.root(),
    {
        self.node
    }

    /// The root node, for inspection or traversal.
    pub fn node(&self) -> (r: &ExprNode)
        ensures
            *r == self.root(),
    {
        &self.node
    }

    /// The conventional mathematical text of the expression, such as
    /// `∀x. ((x > 0) → ((x * x) > 0))`.
    pub fn to_string(&self) -> (r: String)
        ensures
            r@ == node_text(self.root()),
    {
        let mut out = String::new();
        write_node(&self.node, &mut out);
        assert(out@ =~= node_text(self.root()));
        out
    }
}

impl<K: Kind> Clone for Expr<K> {
    /// Another handle on the same nodes.
    fn clone(&self) -> (r: Self)
        ensures
            r.root() == self.root(),
    {
        Expr { node: Arc::clone(&self.node), _kind: PhantomData }
    }
}

/// An integer literal is written as its decimal numeral: a `-` exactly
/// when the value is negative, then digits, most significant first and
/// without leading zeros, that read back as the magnitude of the value.
pub proof fn lemma_int_literal_text(v: i64)
    ensures
        v < 0 ==> {
            let t = node_text(ExprNode::IntLit(v));
            t.len() > 0 && t[0] == '-' && numeral(t.drop_first()) && -digits_value(t.drop_first()) == v
        },
        v >= 0 ==> numeral(node_text(ExprNode::IntLit(v))) && digits_value(
            node_text(ExprNode::IntLit(v)),
        ) == v,
{
    lemma_int_text_reads_back(v as int);
}

} // verus!
