//! SMT-LIB2 text of expressions.
use vstd::prelude::*;
use crate::smt::expr::{Expr, ExprInner};
use crate::smt::sort::{sort_text, write_sort, Sort};
use crate::text::{
    int_text, lemma_occurs_at_within, nat_text, occurs, occurs_at, push_str, push_string, write_i64,
    write_u64,
};

verus! {

/// The SMT-LIB2 text of an expression: a single s-expression.
pub open spec fn expr_text(e: Expr) -> Seq<char>
    decreases e, 1nat,
{
    match *e.inner {
        ExprInner::BoolLit(b) => if b {
            "true"@
        } else {
            "false"@
        },
        ExprInner::IntLit(n) => if n < 0 {
            "(- "@ + nat_text((-n) as nat) + ")"@
        } else {
            nat_text(n as nat)
        },
        ExprInner::RealLit(n, d) => if d == 1 {
            real_numeral_text(n as int)
        } else {
            "(/ "@ + real_numeral_text(n as int) + " "@ + nat_text(d as nat) + ".0)"@
        },
        ExprInner::BitVecLit(v, w) => "(_ bv"@ + nat_text(v as nat) + " "@ + nat_text(w as nat) + ")"@,
        ExprInner::Var(name, _) => name@,
        ExprInner::Not(a) => unary_text("not"@, expr_text(a)),
        ExprInner::And(args) => nary_text("and"@, list_text(args@)),
        ExprInner::Or(args) => nary_text("or"@, list_text(args@)),
        ExprInner::Implies(a, b) => binary_text("=>"@, expr_text(a), expr_text(b)),
        ExprInner::Iff(a, b) => binary_text("="@, expr_text(a), expr_text(b)),
        ExprInner::Eq(a, b) => binary_text("="@, expr_text(a), expr_text(b)),
        ExprInner::Distinct(args) => nary_text("distinct"@, list_text(args@)),
        ExprInner::Lt(a, b) => binary_text("<"@, expr_text(a), expr_text(b)),
        ExprInner::Le(a, b) => binary_text("<="@, expr_text(a), expr_text(b)),
        ExprInner::Gt(a, b) => binary_text(">"@, expr_text(a), expr_text(b)),
        ExprInner::Ge(a, b) => binary_text(">="@, expr_text(a), expr_text(b)),
        ExprInner::Add(args) => nary_text("+"@, list_text(args@)),
        ExprInner::Sub(a, b) => binary_text("-"@, expr_text(a), expr_text(b)),
        ExprInner::Mul(args) => nary_text("*"@, list_text(args@)),
        ExprInner::Div(a, b) => binary_text(
            if int_valued(a) && int_valued(b) {
                "div"@
            } else {
                "/"@
            },
            expr_text(a),
            expr_text(b),
        ),
        ExprInner::Mod(a, b) => binary_text("mod"@, expr_text(a), expr_text(b)),
        ExprInner::Neg(a) => unary_text("-"@, expr_text(a)),
        ExprInner::Abs(a) => unary_text("abs"@, expr_text(a)),
        ExprInner::Forall(vars, body) => quantifier_text("forall"@, bindings_text(vars@), expr_text(body)),
        ExprInner::Exists(vars, body) => quantifier_text("exists"@, bindings_text(vars@), expr_text(body)),
        ExprInner::Ite(c, t, f) => "(ite "@ + expr_text(c) + " "@ + expr_text(t) + " "@ + expr_text(
            f,
        ) + ")"@,
    }
}

/// A whole number as a real numeral: `n.0`, or `(- n.0)` below zero, since
/// SMT-LIB2 numerals carry no sign.
pub open spec fn real_numeral_text(n: int) -> Seq<char> {
    if n < 0 {
        "(- "@ + nat_text((-n) as nat) + ".0)"@
    } else {
        nat_text(n as nat) + ".0"@
    }
}

/// `e` has sort `Int`: an integer literal, an `Int` variable, or `+`, `-`,
/// `*`, `div`, `mod`, negation, `abs` or `ite` of `Int` operands.
pub open spec fn int_valued(e: Expr) -> bool
    decreases e, 1nat,
{
    match *e.inner {
        ExprInner::IntLit(_) => true,
        ExprInner::Var(_, s) => s is Int,
        ExprInner::Add(args) => all_int_valued(args@),
        ExprInner::Mul(args) => all_int_valued(args@),
        ExprInner::Sub(a, b) => int_valued(a) && int_valued(b),
        ExprInner::Div(a, b) => int_valued(a) && int_valued(b),
        ExprInner::Mod(a, b) => int_valued(a) && int_valued(b),
        ExprInner::Neg(a) => int_valued(a),
        ExprInner::Abs(a) => int_valued(a),
        ExprInner::Ite(_, t, f) => int_valued(t) && int_valued(f),
        _ => false,
    }
}

/// Every expression of `es` has sort `Int`.
pub open spec fn all_int_valued(es: Seq<Expr>) -> bool
    decreases es, 0nat,
{
    if es.len() == 0 {
        true
    } else {
        all_int_valued(es.subrange(0, es.len() - 1)) && int_valued(es[es.len() - 1])
    }
}

/// `(op a)`, given the text of `a`.
pub open spec fn unary_text(op: Seq<char>, a: Seq<char>) -> Seq<char> {
    "("@ + op + " "@ + a + ")"@
}

/// `(op a b)`, given the texts of `a` and `b`.
pub open spec fn binary_text(op: Seq<char>, a: Seq<char>, b: Seq<char>) -> Seq<char> {
    "("@ + op + " "@ + a + " "@ + b + ")"@
}

/// `(op args)`, given the space-separated text of the arguments.
pub open spec fn nary_text(op: Seq<char>, args: Seq<char>) -> Seq<char> {
    "("@ + op + " "@ + args + ")"@
}

/// `(q (bindings) body)`, given the texts of the bindings and the body.
pub open spec fn quantifier_text(q: Seq<char>, bindings: Seq<char>, body: Seq<char>) -> Seq<char> {
    "("@ + q + " ("@ + bindings + ") "@ + body + ")"@
}

/// The texts of a list of expressions, separated by single spaces.
pub open spec fn list_text(es: Seq<Expr>) -> Seq<char>
    decreases es, 0nat,
{
    if es.len() == 0 {
        Seq::empty()
    } else if es.len() == 1 {
        expr_text(es[0])
    } else {
        list_text(es.subrange(0, es.len() - 1)) + " "@ + expr_text(es[es.len() - 1])
    }
}

/// One quantifier binding `(name Sort)`.
pub open spec fn binding_text(b: (String, Sort)) -> Seq<char> {
    "("@ + b.0@ + " "@ + sort_text(b.1) + ")"@
}

/// Quantifier bindings, separated by single spaces.
pub open spec fn bindings_text(vs: Seq<(String, Sort)>) -> Seq<char>
    decreases vs.len(),
{
    if vs.len() == 0 {
        Seq::empty()
    } else if vs.len() == 1 {
        binding_text(vs[0])
    } else {
        bindings_text(vs.subrange(0, vs.len() - 1)) + " "@ + binding_text(vs[vs.len() - 1])
    }
}

/// Appends the texts of `args`, separated by single spaces.
fn write_list(args: &Vec<Expr>, out: &mut String)
    ensures
        final(out)@ == old(out)@ + list_text(args@),
    decreases args, 0nat,
{
    let mut i: usize = 0;
    while i < args.len()
        invariant
            i <= args@.len(),
            out@ == old(out)@ + list_text(args@.subrange(0, i as int)),
        decreases args@.len() - i,
    {
        if i > 0 {
            push_str(out, " ");
        }
        proof {
            assert(decreases_to!(args => args@[i as int]));
        }
        write_expr(&args[i], out);
        proof {
            let pre = args@.subrange(0, i as int);
            let post = args@.subrange(0, i + 1);
            assert(post.subrange(0, post.len() - 1) =~= pre);
            assert(post[post.len() - 1] == args@[i as int]);
            if i == 0 {
                assert(pre.len() == 0);
                assert(list_text(pre) =~= Seq::<char>::empty());
            }
            assert(out@ =~= old(out)@ + list_text(post));
        }
        i = i + 1;
    }
    assert(args@.subrange(0, args@.len() as int) =~= args@);
}

/// Appends quantifier bindings `(name Sort)`, separated by single spaces.
fn write_bindings(vars: &Vec<(String, Sort)>, out: &mut String)
    ensures
        final(out)@ == old(out)@ + bindings_text(vars@),
{
    let mut i: usize = 0;
    while i < vars.len()
        invariant
            i <= vars@.len(),
            out@ == old(out)@ + bindings_text(vars@.subrange(0, i as int)),
        decreases vars@.len() - i,
    {
        if i > 0 {
            push_str(out, " ");
        }
        let (name, sort) = &vars[i];
        push_str(out, "(");
        push_string(out, name);
        push_str(out, " ");
        write_sort(sort, out);
        push_str(out, ")");
        proof {
            let pre = vars@.subrange(0, i as int);
            let post = vars@.subrange(0, i + 1);
            assert(post.subrange(0, post.len() - 1) =~= pre);
            assert(post[post.len() - 1] == vars@[i as int]);
            if i == 0 {
                assert(pre.len() == 0);
            }
            assert(out@ =~= old(out)@ + bindings_text(post));
        }
        i = i + 1;
    }
    assert(vars@.subrange(0, vars@.len() as int) =~= vars@);
}

/// Appends `(op a b)`.
fn write_binary(op: &str, a: &Expr, b: &Expr, out: &mut String, Ghost(parent): Ghost<Expr>)
    requires
        decreases_to!(parent => *a),
        decreases_to!(parent => *b),
    ensures
        final(out)@ == old(out)@ + binary_text(op@, expr_text(*a), expr_text(*b)),
    decreases parent, 0nat,
{
    push_str(out, "(");
    push_str(out, op);
    push_str(out, " ");
    write_expr(a, out);
    push_str(out, " ");
    write_expr(b, out);
    push_str(out, ")");
    assert(final(out)@ =~= old(out)@ + binary_text(op@, expr_text(*a), expr_text(*b)));
}

/// Appends `(op a)`.
fn write_unary(op: &str, a: &Expr, out: &mut String, Ghost(parent): Ghost<Expr>)
    requires
        decreases_to!(parent => *a),
    ensures
        final(out)@ == old(out)@ + unary_text(op@, expr_text(*a)),
    decreases parent, 0nat,
{
    push_str(out, "(");
    push_str(out, op);
    push_str(out, " ");
    write_expr(a, out);
    push_str(out, ")");
    assert(final(out)@ =~= old(out)@ + unary_text(op@, expr_text(*a)));
}

/// Appends `(op a b ...)`.
fn write_nary(op: &str, args: &Vec<Expr>, out: &mut String, Ghost(parent): Ghost<Expr>)
    requires
        decreases_to!(parent => *args),
    ensures
        final(out)@ == old(out)@ + nary_text(op@, list_text(args@)),
    decreases parent, 0nat,
{
    push_str(out, "(");
    push_str(out, op);
    push_str(out, " ");
    write_list(args, out);
    push_str(out, ")");
    assert(final(out)@ =~= old(out)@ + nary_text(op@, list_text(args@)));
}

/// Appends `(q (bindings) body)`.
fn write_quantifier(
    q: &str,
    vars: &Vec<(String, Sort)>,
    body: &Expr,
    out: &mut String,
    Ghost(parent): Ghost<Expr>,
)
    requires
        decreases_to!(parent => *body),
    ensures
        final(out)@ == old(out)@ + quantifier_text(q@, bindings_text(vars@), expr_text(*body)),
    decreases parent, 0nat,
{
    push_str(out, "(");
    push_str(out, q);
    push_str(out, " (");
    write_bindings(vars, out);
    push_str(out, ") ");
    write_expr(body, out);
    push_str(out, ")");
    assert(final(out)@ =~= old(out)@ + quantifier_text(q@, bindings_text(vars@), expr_text(*body)));
}

/// Appends `n` as a real numeral: `n.0`, or `(- n.0)` below zero.
fn write_real_numeral(out: &mut String, n: i64)
    ensures
        final(out)@ == old(out)@ + real_numeral_text(n as int),
{
    let ghost start = out@;
    if n < 0 {
        push_str(out, "(- ");
        let m: u64 = if n == i64::MIN {
            9223372036854775808u64
        } else {
            (-n) as u64
        };
        write_u64(out, m);
        push_str(out, ".0)");
    } else {
        write_u64(out, n as u64);
        push_str(out, ".0");
    }
    assert(out@ =~= start + real_numeral_text(n as int));
}

/// Whether `e` has sort `Int`.
fn is_int_valued(e: &Expr) -> (r: bool)
    ensures
        r == int_valued(*e),
    decreases e, 1nat,
{
    match &*e.inner {
        ExprInner::IntLit(_) => true,
        ExprInner::Var(_, s) => match s {
            Sort::Int => true,
            _ => false,
        },
        ExprInner::Add(args) => are_int_valued(args),
        ExprInner::Mul(args) => are_int_valued(args),
        ExprInner::Sub(a, b) => is_int_valued(a) && is_int_valued(b),
        ExprInner::Div(a, b) => is_int_valued(a) && is_int_valued(b),
        ExprInner::Mod(a, b) => is_int_valued(a) && is_int_valued(b),
        ExprInner::Neg(a) => is_int_valued(a),
        ExprInner::Abs(a) => is_int_valued(a),
        ExprInner::Ite(_, t, f) => is_int_valued(t) && is_int_valued(f),
        _ => false,
    }
}

/// Whether every expression of `args` has sort `Int`.
fn are_int_valued(args: &Vec<Expr>) -> (r: bool)
    ensures
        r == all_int_valued(args@),
    decreases args, 0nat,
{
    let mut i: usize = 0;
    while i < args.len()
        invariant
            i <= args@.len(),
            all_int_valued(args@.subrange(0, i as int)),
        decreases args@.len() - i,
    {
        proof {
            assert(decreases_to!(args => args@[i as int]));
        }
        let ok = is_int_valued(&args[i]);
        proof {
            let post = args@.subrange(0, i + 1);
            assert(post.subrange(0, post.len() - 1) =~= args@.subrange(0, i as int));
            assert(post[post.len() - 1] == args@[i as int]);
        }
        if !ok {
            proof {
                if all_int_valued(args@) {
                    lemma_all_int_valued_prefix(args@, i + 1);
                }
            }
            return false;
        }
        i = i + 1;
    }
    assert(args@.subrange(0, args@.len() as int) =~= args@);
    true
}

/// A sequence all of whose expressions have sort `Int` has only such
/// prefixes.
proof fn lemma_all_int_valued_prefix(es: Seq<Expr>, k: int)
    requires
        0 <= k <= es.len(),
        all_int_valued(es),
    ensures
        all_int_valued(es.subrange(0, k)),
    decreases es.len(),
{
    if k < es.len() {
        assert(es.subrange(0, es.len() - 1).subrange(0, k) =~= es.subrange(0, k));
        lemma_all_int_valued_prefix(es.subrange(0, es.len() - 1), k);
    } else {
        assert(es.subrange(0, k) =~= es);
    }
}

/// Appends the text of a literal or a variable.
fn write_atom(e: &Expr, out: &mut String)
    requires
        e.node() is BoolLit || e.node() is IntLit || e.node() is RealLit || e.node() is BitVecLit
            || e.node() is Var,
    ensures
        final(out)@ == old(out)@ + expr_text(*e),
{
    let ghost start = out@;
    match &*e.inner {
        ExprInner::BoolLit(b) => {
            if *b {
                push_str(out, "true");
            } else {
                push_str(out, "false");
            }
        },
        ExprInner::IntLit(n) => {
            if *n < 0 {
                push_str(out, "(- ");
                let m: u64 = if *n == i64::MIN {
                    9223372036854775808u64
                } else {
                    (-*n) as u64
                };
                write_u64(out, m);
                push_str(out, ")");
            } else {
                write_u64(out, *n as u64);
            }
        },
        ExprInner::RealLit(n, d) => {
            if *d == 1 {
                write_real_numeral(out, *n);
            } else {
                push_str(out, "(/ ");
                write_real_numeral(out, *n);
                push_str(out, " ");
                write_u64(out, *d);
                push_str(out, ".0)");
            }
        },
        ExprInner::BitVecLit(v, w) => {
            push_str(out, "(_ bv");
            write_u64(out, *v);
            push_str(out, " ");
            write_u64(out, *w as u64);
            push_str(out, ")");
        },
        ExprInner::Var(name, _sort) => {
            push_string(out, name);
        },
        _ => {},
    }
    assert(out@ =~= start + expr_text(*e));
}

/// Appends the SMT-LIB2 text of `e`.
fn write_expr(e: &Expr, out: &mut String)
    ensures
        final(out)@ == old(out)@ + expr_text(*e),
    decreases e, 1nat,
{
    match &*e.inner {
        ExprInner::Not(a) => write_unary("not", a, out, Ghost(*e)),
        ExprInner::And(args) => write_nary("and", args, out, Ghost(*e)),
        ExprInner::Or(args) => write_nary("or", args, out, Ghost(*e)),
        ExprInner::Implies(a, b) => write_binary("=>", a, b, out, Ghost(*e)),
        ExprInner::Iff(a, b) => write_binary("=", a, b, out, Ghost(*e)),
        ExprInner::Eq(a, b) => write_binary("=", a, b, out, Ghost(*e)),
        ExprInner::Distinct(args) => write_nary("distinct", args, out, Ghost(*e)),
        ExprInner::Lt(a, b) => write_binary("<", a, b, out, Ghost(*e)),
        ExprInner::Le(a, b) => write_binary("<=", a, b, out, Ghost(*e)),
        ExprInner::Gt(a, b) => write_binary(">", a, b, out, Ghost(*e)),
        ExprInner::Ge(a, b) => write_binary(">=", a, b, out, Ghost(*e)),
        ExprInner::Add(args) => write_nary("+", args, out, Ghost(*e)),
        ExprInner::Sub(a, b) => write_binary("-", a, b, out, Ghost(*e)),
        ExprInner::Mul(args) => write_nary("*", args, out, Ghost(*e)),
        ExprInner::Div(a, b) => {
            if is_int_valued(a) && is_int_valued(b) {
                write_binary("div", a, b, out, Ghost(*e))
            } else {
                write_binary("/", a, b, out, Ghost(*e))
            }
        },
        ExprInner::Mod(a, b) => write_binary("mod", a, b, out, Ghost(*e)),
        ExprInner::Neg(a) => write_unary("-", a, out, Ghost(*e)),
        ExprInner::Abs(a) => write_unary("abs", a, out, Ghost(*e)),
        ExprInner::Forall(vars, body) => write_quantifier("forall", vars, body, out, Ghost(*e)),
        ExprInner::Exists(vars, body) => write_quantifier("exists", vars, body, out, Ghost(*e)),
        ExprInner::Ite(c, t, f) => {
            let ghost start = out@;
            push_str(out, "(ite ");
            write_expr(c, out);
            push_str(out, " ");
            write_expr(t, out);
            push_str(out, " ");
            write_expr(f, out);
            push_str(out, ")");
            assert(out@ =~= start + expr_text(*e));
        },
        _ => write_atom(e, out),
    }
}

/// The SMT-LIB2 text of `expr`: one s-expression, to be put inside an
/// `(assert ...)` command or read on its own.
pub fn emit_smtlib2(expr: &Expr) -> (r: String)
    ensures
        r@ == expr_text(*expr),
{
    let mut out = String::new();
    write_expr(expr, &mut out);
    assert(out@ =~= expr_text(*expr));
    out
}

/// The room that the bindings of `vs` take: each binding and one space
/// after it.
pub open spec fn bindings_width(vs: Seq<(String, Sort)>) -> nat
    decreases vs.len(),
{
    if vs.len() == 0 {
        0
    } else {
        bindings_width(vs.drop_last()) + binding_text(vs.last()).len() + 1
    }
}

/// The bindings of the first `k` variables begin the bindings of all of
/// them.
proof fn lemma_bindings_prefix(vs: Seq<(String, Sort)>, k: int)
    requires
        0 <= k <= vs.len(),
    ensures
        occurs_at(bindings_text(vs), bindings_text(vs.take(k)), 0),
    decreases vs.len(),
{
    let n = vs.len() as int;
    if k == n {
        assert(vs.take(k) =~= vs);
        assert(bindings_text(vs).subrange(0, bindings_text(vs).len() as int) =~= bindings_text(vs));
    } else {
        let front = vs.subrange(0, n - 1);
        lemma_bindings_prefix(front, k);
        assert(front.take(k) =~= vs.take(k));
        let t = bindings_text(front);
        let u = bindings_text(vs.take(k));
        if n == 1 {
            assert(vs.take(k) =~= Seq::<(String, Sort)>::empty());
            assert(bindings_text(vs).subrange(0, 0) =~= u);
        } else {
            assert(bindings_text(vs) == t + " "@ + binding_text(vs[n - 1]));
            assert(bindings_text(vs).subrange(0, u.len() as int) =~= t.subrange(0, u.len() as int));
        }
    }
}

/// The bindings of `k + 1` variables end with the binding of variable `k`.
proof fn lemma_bindings_last(vs: Seq<(String, Sort)>, k: int)
    requires
        0 <= k < vs.len(),
    ensures
        occurs_at(
            bindings_text(vs.take(k + 1)),
            binding_text(vs[k]),
            bindings_text(vs.take(k + 1)).len() - binding_text(vs[k]).len(),
        ),
{
    let w = vs.take(k + 1);
    let b = binding_text(vs[k]);
    if k == 0 {
        assert(bindings_text(w) == b);
    } else {
        assert(w.subrange(0, k) =~= vs.take(k));
        assert(bindings_text(w) == bindings_text(w.subrange(0, k)) + " "@ + b);
    }
    let t = bindings_text(w);
    assert(t.subrange(t.len() - b.len(), t.len() as int) =~= b);
}

/// The length of the bindings: each binding, with one space between two.
proof fn lemma_bindings_len(vs: Seq<(String, Sort)>)
    requires
        vs.len() > 0,
    ensures
        bindings_text(vs).len() + 1 == bindings_width(vs),
    decreases vs.len(),
{
    let n = vs.len() as int;
    reveal_strlit(" ");
    let front = vs.subrange(0, n - 1);
    assert(vs.drop_last() =~= front);
    assert(vs.last() == vs[n - 1]);
    assert(bindings_width(vs) == bindings_width(front) + binding_text(vs[n - 1]).len() + 1);
    if n > 1 {
        lemma_bindings_len(front);
        assert(bindings_text(vs) == bindings_text(front) + " "@ + binding_text(vs[n - 1]));
    } else {
        assert(bindings_width(front) == 0);
        assert(bindings_text(vs) == binding_text(vs[0]));
    }
}

/// The bindings of a quantifier name every bound variable, in order: the
/// bindings of the first `k` variables begin those of all of them, each
/// variable's `(name Sort)` stands in them, and they are as long as the
/// bindings together with one separating space between each two.
pub proof fn lemma_bindings_list_every_variable(vs: Seq<(String, Sort)>)
    ensures
        forall|k: int| 0 <= k <= vs.len() ==> occurs_at(bindings_text(vs), #[trigger] bindings_text(vs.take(k)), 0),
        forall|i: int| 0 <= i < vs.len() ==> occurs(bindings_text(vs), binding_text(#[trigger] vs[i])),
        vs.len() > 0 ==> bindings_text(vs).len() + 1 == bindings_width(vs),
{
    assert forall|k: int| 0 <= k <= vs.len() implies occurs_at(bindings_text(vs), #[trigger] bindings_text(vs.take(k)), 0) by {
        lemma_bindings_prefix(vs, k);
    }
    assert forall|i: int| 0 <= i < vs.len() implies occurs(bindings_text(vs), binding_text(#[trigger] vs[i])) by {
        lemma_bindings_prefix(vs, i + 1);
        lemma_bindings_last(vs, i);
        let u = bindings_text(vs.take(i + 1));
        let b = binding_text(vs[i]);
        let p = u.len() - b.len();
        lemma_occurs_at_within(Seq::<char>::empty(), u, bindings_text(vs).skip(u.len() as int), b, p);
        assert(bindings_text(vs) =~= Seq::<char>::empty() + u + bindings_text(vs).skip(u.len() as int));
        assert(occurs_at(bindings_text(vs), b, p));
    }
    if vs.len() > 0 {
        lemma_bindings_len(vs);
    }
}

/// The text of a quantifier holds the binding `(name Sort)` of every
/// variable that it binds.
pub proof fn lemma_quantifier_binds_every_variable(e: Expr)
    ensures
        match *e.inner {
            ExprInner::Forall(vars, body) => forall|i: int|
                0 <= i < vars@.len() ==> occurs(expr_text(e), binding_text(#[trigger] vars@[i])),
            ExprInner::Exists(vars, body) => forall|i: int|
                0 <= i < vars@.len() ==> occurs(expr_text(e), binding_text(#[trigger] vars@[i])),
            _ => true,
        },
{
    match *e.inner {
        ExprInner::Forall(vars, body) => {
            lemma_quantifier_holds_bindings("forall"@, vars@, expr_text(body));
        },
        ExprInner::Exists(vars, body) => {
            lemma_quantifier_holds_bindings("exists"@, vars@, expr_text(body));
        },
        _ => {},
    }
}

/// Every binding of `vs` stands in a quantifier text built from them.
proof fn lemma_quantifier_holds_bindings(q: Seq<char>, vs: Seq<(String, Sort)>, body: Seq<char>)
    ensures
        forall|i: int|
            0 <= i < vs.len() ==> occurs(
                quantifier_text(q, bindings_text(vs), body),
                binding_text(#[trigger] vs[i]),
            ),
{
    lemma_bindings_list_every_variable(vs);
    let p = "("@ + q + " ("@;
    let r = ") "@ + body + ")"@;
    let bt = bindings_text(vs);
    assert(quantifier_text(q, bt, body) =~= p + bt + r);
    assert forall|i: int| 0 <= i < vs.len() implies occurs(
        quantifier_text(q, bindings_text(vs), body),
        binding_text(#[trigger] vs[i]),
    ) by {
        let b = binding_text(vs[i]);
        assert(occurs(bt, b));
        let j = choose|j: int| occurs_at(bt, b, j);
        lemma_occurs_at_within(p, bt, r, b, j);
    }
}

} // verus!
