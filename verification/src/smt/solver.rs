//! A builder that collects declarations and assertions and writes a whole
//! SMT-LIB2 problem.
use vstd::prelude::*;
use crate::smt::expr::Expr;
use crate::smt::smtlib2::{emit_smtlib2, expr_text};
use crate::smt::sort::{sort_text, write_sort, Sort};
use crate::text::{lemma_occurs_at_within, occurs_at, push_str, push_string};

verus! {

/// Collects declarations, assertions and an optional logic, then writes the
/// complete SMT-LIB2 problem.
pub struct SmtSolver {
    declarations: Vec<String>,
    assertions: Vec<Expr>,
    logic: Option<String>,
}

/// What a solver holds: the logic (if set), the declaration commands in
/// order, and the asserted expressions in order.
pub type SolverView = (Option<Seq<char>>, Seq<Seq<char>>, Seq<Expr>);

impl View for SmtSolver {
    type V = SolverView;

    closed spec fn view(&self) -> SolverView {
        (
            match self.logic {
                Some(l) => Some(l@),
                None => None,
            },
            self.declarations@.map_values(|d: String| d@),
            self.assertions@,
        )
    }
}

/// The sorts' texts, separated by single spaces.
pub open spec fn sorts_text(ss: Seq<Sort>) -> Seq<char>
    decreases ss.len(),
{
    if ss.len() == 0 {
        Seq::empty()
    } else if ss.len() == 1 {
        sort_text(ss[0])
    } else {
        sorts_text(ss.subrange(0, ss.len() - 1)) + " "@ + sort_text(ss[ss.len() - 1])
    }
}

/// `(declare-const name Sort)`.
pub open spec fn declare_const_text(name: Seq<char>, sort: Sort) -> Seq<char> {
    "(declare-const "@ + name + " "@ + sort_text(sort) + ")"@
}

/// `(declare-fun name (Sorts...) Sort)`.
pub open spec fn declare_fun_text(name: Seq<char>, args: Seq<Sort>, ret: Sort) -> Seq<char> {
    "(declare-fun "@ + name + " ("@ + sorts_text(args) + ") "@ + sort_text(ret) + ")"@
}

/// Each declaration on a line of its own.
pub open spec fn decls_text(ds: Seq<Seq<char>>) -> Seq<char>
    decreases ds.len(),
{
    if ds.len() == 0 {
        Seq::empty()
    } else {
        decls_text(ds.drop_last()) + ds.last() + "\n"@
    }
}

/// Each assertion as `(assert e)` on a line of its own.
pub open spec fn asserts_text(es: Seq<Expr>) -> Seq<char>
    decreases es.len(),
{
    if es.len() == 0 {
        Seq::empty()
    } else {
        asserts_text(es.drop_last()) + "(assert "@ + expr_text(es.last()) + ")\n"@
    }
}

/// The whole problem: `(set-logic L)` when a logic is set, then the
/// declarations, then the assertions, then, when `check` holds,
/// `(check-sat)` and `(get-model)`; each command on a line of its own.
pub open spec fn problem_text(v: SolverView, check: bool) -> Seq<char> {
    (match v.0 {
        Some(l) => "(set-logic "@ + l + ")\n"@,
        None => Seq::empty(),
    }) + decls_text(v.1) + asserts_text(v.2) + if check {
        "(check-sat)\n"@ + "(get-model)\n"@
    } else {
        Seq::empty()
    }
}

impl SmtSolver {
    /// An empty problem: no logic, no declarations, no assertions.
    pub fn new() -> (r: Self)
        ensures
            r@ == (None::<Seq<char>>, Seq::<Seq<char>>::empty(), Seq::<Expr>::empty()),
    {
        let r = SmtSolver { declarations: Vec::new(), assertions: Vec::new(), logic: None };
        assert(r@.1 =~= Seq::<Seq<char>>::empty());
        r
    }

    /// Sets the logic (such as `QF_LIA`), written first as `(set-logic L)`.
    pub fn set_logic(&mut self, logic: &str) -> (r: &mut Self)
        ensures
            r@ == (Some(logic@), old(self)@.1, old(self)@.2),
            *final(self) == *final(r),
    {
        self.logic = Some(logic.to_owned());
        self
    }

    /// Declares a constant: adds `(declare-const name Sort)`.
    pub fn declare_const(&mut self, name: &str, sort: Sort) -> (r: &mut Self)
        ensures
            r@ == (old(self)@.0, old(self)@.1.push(declare_const_text(name@, sort)), old(self)@.2),
            *final(self) == *final(r),
    {
        let mut d = String::new();
        push_str(&mut d, "(declare-const ");
        push_str(&mut d, name);
        push_str(&mut d, " ");
        write_sort(&sort, &mut d);
        push_str(&mut d, ")");
        assert(d@ =~= declare_const_text(name@, sort));
        self.declarations.push(d);
        assert(self@.1 =~= old(self)@.1.push(declare_const_text(name@, sort)));
        self
    }

    /// Declares an uninterpreted function: adds
    /// `(declare-fun name (arg sorts) return_sort)`.
    pub fn declare_fun(&mut self, name: &str, arg_sorts: &[Sort], return_sort: Sort) -> (r:
        &mut Self)
        ensures
            r@ == (old(self)@.0, old(self)@.1.push(declare_fun_text(name@, arg_sorts@, return_sort)),
            old(self)@.2),
            *final(self) == *final(r),
    {
        let mut d = String::new();
        push_str(&mut d, "(declare-fun ");
        push_str(&mut d, name);
        push_str(&mut d, " (");
        let mut i: usize = 0;
        let ghost mid = d@;
        while i < arg_sorts.len()
            invariant
                i <= arg_sorts@.len(),
                d@ == mid + sorts_text(arg_sorts@.subrange(0, i as int)),
            decreases arg_sorts@.len() - i,
        {
            if i > 0 {
                push_str(&mut d, " ");
            }
            write_sort(&arg_sorts[i], &mut d);
            proof {
                let pre = arg_sorts@.subrange(0, i as int);
                let post = arg_sorts@.subrange(0, i + 1);
                assert(post.subrange(0, post.len() - 1) =~= pre);
                if i == 0 {
                    assert(pre.len() == 0);
                }
                assert(d@ =~= mid + sorts_text(post));
            }
            i = i + 1;
        }
        assert(arg_sorts@.subrange(0, arg_sorts@.len() as int) =~= arg_sorts@);
        push_str(&mut d, ") ");
        write_sort(&return_sort, &mut d);
        push_str(&mut d, ")");
        assert(d@ =~= declare_fun_text(name@, arg_sorts@, return_sort));
        self.declarations.push(d);
        assert(self@.1 =~= old(self)@.1.push(declare_fun_text(name@, arg_sorts@, return_sort)));
        self
    }

    /// Adds an assertion: `(assert e)`.
    pub fn assert_(&mut self, expr: Expr) -> (r: &mut Self)
        ensures
            r@ == (old(self)@.0, old(self)@.1, old(self)@.2.push(expr)),
            *final(self) == *final(r),
    {
        self.assertions.push(expr);
        assert(self@.1 =~= old(self)@.1);
        self
    }

    /// The problem without `(check-sat)`, for callers that append their own
    /// commands.
    pub fn emit_smtlib2(&self) -> (r: String)
        ensures
            r@ == problem_text(self@, false),
    {
        self.build(false)
    }

    /// The complete problem, ending with `(check-sat)` and `(get-model)`.
    pub fn emit_check(&self) -> (r: String)
        ensures
            r@ == problem_text(self@, true),
    {
        self.build(true)
    }

    fn build(&self, include_check: bool) -> (out: String)
        ensures
            out@ == problem_text(self@, include_check),
    {
        let mut out = String::new();
        match &self.logic {
            Some(logic) => {
                push_str(&mut out, "(set-logic ");
                push_string(&mut out, logic);
                push_str(&mut out, ")\n");
            },
            None => {},
        }
        let ghost head = out@;
        let mut i: usize = 0;
        while i < self.declarations.len()
            invariant
                i <= self@.1.len(),
                self@.1.len() == self.declarations@.len(),
                forall|k: int| 0 <= k < self@.1.len() ==> self@.1[k] == #[trigger] self.declarations@[k]@,
                out@ == head + decls_text(self@.1.subrange(0, i as int)),
            decreases self@.1.len() - i,
        {
            push_string(&mut out, &self.declarations[i]);
            push_str(&mut out, "\n");
            proof {
                let post = self@.1.subrange(0, i + 1);
                assert(post.drop_last() =~= self@.1.subrange(0, i as int));
                assert(out@ =~= head + decls_text(post));
            }
            i = i + 1;
        }
        assert(self@.1.subrange(0, self@.1.len() as int) =~= self@.1);
        let ghost body = out@;
        let mut j: usize = 0;
        while j < self.assertions.len()
            invariant
                j <= self@.2.len(),
                self@.2 == self.assertions@,
                out@ == body + asserts_text(self@.2.subrange(0, j as int)),
            decreases self@.2.len() - j,
        {
            push_str(&mut out, "(assert ");
            let e = emit_smtlib2(&self.assertions[j]);
            push_string(&mut out, &e);
            push_str(&mut out, ")\n");
            proof {
                let post = self@.2.subrange(0, j + 1);
                assert(post.drop_last() =~= self@.2.subrange(0, j as int));
                assert(out@ =~= body + asserts_text(post));
            }
            j = j + 1;
        }
        assert(self@.2.subrange(0, self@.2.len() as int) =~= self@.2);
        if include_check {
            push_str(&mut out, "(check-sat)\n");
            push_str(&mut out, "(get-model)\n");
        }
        assert(out@ =~= problem_text(self@, include_check));
        out
    }
}

impl Default for SmtSolver {
    fn default() -> (r: Self)
        ensures
            r@ == (None::<Seq<char>>, Seq::<Seq<char>>::empty(), Seq::<Expr>::empty()),
    {
        Self::new()
    }
}

/// The line of a declaration command.
pub open spec fn decl_line(d: Seq<char>) -> Seq<char> {
    d + "\n"@
}

/// The line of an assertion command.
pub open spec fn assert_line(e: Expr) -> Seq<char> {
    "(assert "@ + expr_text(e) + ")\n"@
}

/// Where the line of declaration `i` stands in the declarations' text.
proof fn lemma_decl_line_at(ds: Seq<Seq<char>>, i: int) -> (p: int)
    requires
        0 <= i < ds.len(),
    ensures
        occurs_at(decls_text(ds), decl_line(ds[i]), p),
    decreases ds.len(),
{
    let front = ds.drop_last();
    let t = decls_text(front);
    assert(decls_text(ds) =~= t + decl_line(ds.last()));
    if i == ds.len() - 1 {
        let l = decl_line(ds[i]);
        assert(decls_text(ds).subrange(t.len() as int, (t.len() + l.len()) as int) =~= l);
        t.len() as int
    } else {
        let p = lemma_decl_line_at(front, i);
        lemma_occurs_at_within(Seq::<char>::empty(), t, decl_line(ds.last()), decl_line(ds[i]), p);
        assert(Seq::<char>::empty() + t + decl_line(ds.last()) =~= decls_text(ds));
        p
    }
}

/// Where the line of assertion `j` stands in the assertions' text.
proof fn lemma_assert_line_at(es: Seq<Expr>, j: int) -> (p: int)
    requires
        0 <= j < es.len(),
    ensures
        occurs_at(asserts_text(es), assert_line(es[j]), p),
    decreases es.len(),
{
    let front = es.drop_last();
    let t = asserts_text(front);
    assert(asserts_text(es) =~= t + assert_line(es.last()));
    if j == es.len() - 1 {
        let l = assert_line(es[j]);
        assert(asserts_text(es).subrange(t.len() as int, (t.len() + l.len()) as int) =~= l);
        t.len() as int
    } else {
        let p = lemma_assert_line_at(front, j);
        lemma_occurs_at_within(Seq::<char>::empty(), t, assert_line(es.last()), assert_line(es[j]), p);
        assert(Seq::<char>::empty() + t + assert_line(es.last()) =~= asserts_text(es));
        p
    }
}

/// Position `k` of `text` has the line of every declaration of `ds` wholly
/// before it and the line of every assertion of `es` after it.
pub open spec fn declared_before(text: Seq<char>, ds: Seq<Seq<char>>, es: Seq<Expr>, k: int) -> bool {
    &&& 0 <= k <= text.len()
    &&& forall|i: int| 0 <= i < ds.len() ==> line_ends_by(text, decl_line(#[trigger] ds[i]), k)
    &&& forall|j: int| 0 <= j < es.len() ==> line_starts_from(text, assert_line(#[trigger] es[j]), k)
}

/// `line` stands in `text` and ends at or before position `k`.
pub open spec fn line_ends_by(text: Seq<char>, line: Seq<char>, k: int) -> bool {
    exists|p: int| occurs_at(text, line, p) && p + line.len() <= k
}

/// `line` stands in `text` and starts at or after position `k`.
pub open spec fn line_starts_from(text: Seq<char>, line: Seq<char>, k: int) -> bool {
    exists|p: int| occurs_at(text, line, p) && k <= p
}

/// A problem declares every symbol before it asserts anything: some point
/// of the text has every declaration line wholly before it and every
/// assertion line after it. The text begins with the logic line when a
/// logic is set, and ends with `(check-sat)` and `(get-model)` when asked.
pub proof fn lemma_declarations_precede_assertions(v: SolverView, check: bool)
    ensures
        exists|k: int| #[trigger] declared_before(problem_text(v, check), v.1, v.2, k),
        v.0 is Some ==> occurs_at(problem_text(v, check), "(set-logic "@ + v.0->0 + ")\n"@, 0),
        check ==> occurs_at(
            problem_text(v, check),
            "(check-sat)\n"@ + "(get-model)\n"@,
            problem_text(v, check).len() - ("(check-sat)\n"@ + "(get-model)\n"@).len(),
        ),
{
    let l = match v.0 {
        Some(x) => "(set-logic "@ + x + ")\n"@,
        None => Seq::<char>::empty(),
    };
    let d = decls_text(v.1);
    let a = asserts_text(v.2);
    let c = if check {
        "(check-sat)\n"@ + "(get-model)\n"@
    } else {
        Seq::<char>::empty()
    };
    let text = problem_text(v, check);
    assert(text =~= l + d + (a + c));
    assert(text =~= (l + d) + a + c);
    let k: int = (l.len() + d.len()) as int;
    assert forall|i: int| 0 <= i < v.1.len() implies line_ends_by(text, decl_line(#[trigger] v.1[i]), k) by {
        let p = lemma_decl_line_at(v.1, i);
        lemma_occurs_at_within(l, d, a + c, decl_line(v.1[i]), p);
        assert(occurs_at(text, decl_line(v.1[i]), p + l.len()));
    }
    assert forall|j: int| 0 <= j < v.2.len() implies line_starts_from(text, assert_line(#[trigger] v.2[j]), k) by {
        let p = lemma_assert_line_at(v.2, j);
        lemma_occurs_at_within(l + d, a, c, assert_line(v.2[j]), p);
        assert(occurs_at(text, assert_line(v.2[j]), p + (l + d).len()));
    }
    assert(text.len() == l.len() + d.len() + a.len() + c.len());
    assert(0 <= k <= text.len());
    assert(declared_before(text, v.1, v.2, k));
    if v.0 is Some {
        assert(text.subrange(0, l.len() as int) =~= l);
    }
    if check {
        assert(text.subrange(text.len() - c.len(), text.len() as int) =~= c);
    }
}

} // verus!
