//! Reading the `(model ...)` that a solver prints for a satisfiable problem.
use vstd::prelude::*;
use crate::smt::scan::{
    char_seqs, copy_range, join_from, join_words, line_len, parse_i64, parse_i64_chars,
    split_lines, split_words, trim, trim_chars, words,
};
use crate::text::{chars_of, string_of_chars};

verus! {

/// A value of a model, as the contracts see it.
pub enum ModelValue {
    /// A boolean.
    Bool(bool),
    /// An integer.
    Int(i64),
    /// The text of a real number.
    Real(Seq<char>),
    /// A value of another form, as text.
    Opaque(Seq<char>),
}

/// A concrete value from a solver's model.
#[derive(Debug, PartialEq)]
pub enum CeValue {
    /// A boolean.
    Bool(bool),
    /// An integer that fits in an `i64`.
    Int(i64),
    /// A real number, as the solver wrote it.
    Real(String),
    /// A value of another form, as the solver wrote it.
    Opaque(String),
}

impl View for CeValue {
    type V = ModelValue;

    open spec fn view(&self) -> ModelValue {
        match self {
            CeValue::Bool(b) => ModelValue::Bool(*b),
            CeValue::Int(n) => ModelValue::Int(*n),
            CeValue::Real(s) => ModelValue::Real(s@),
            CeValue::Opaque(s) => ModelValue::Opaque(s@),
        }
    }
}

impl Clone for CeValue {
    fn clone(&self) -> (r: Self)
        ensures
            r == *self,
    {
        match self {
            CeValue::Bool(b) => CeValue::Bool(*b),
            CeValue::Int(n) => CeValue::Int(*n),
            CeValue::Real(s) => CeValue::Real(s.clone()),
            CeValue::Opaque(s) => CeValue::Opaque(s.clone()),
        }
    }
}

/// `s` starts with `p`.
pub open spec fn starts_with(s: Seq<char>, p: Seq<char>) -> bool {
    p.len() <= s.len() && s.take(p.len() as int) == p
}

/// `s` has the form `(- X)`.
pub open spec fn is_negation_form(s: Seq<char>) -> bool {
    s.len() >= 4 && starts_with(s, "(- "@) && s.last() == ')'
}

/// The `X` of `(- X)`.
pub open spec fn negation_inner(s: Seq<char>) -> Seq<char> {
    s.subrange(3, s.len() - 1)
}

/// Reading `(- X)` negates an `i64` that cannot be negated (`X` is
/// `i64::MIN`), which overflows.
pub open spec fn negation_overflows(s0: Seq<char>) -> bool {
    let s = trim(s0);
    is_negation_form(s) && parse_i64(trim(negation_inner(s))) == Some(i64::MIN)
}

/// An integer value as solvers print it: `N`, or `(- N)` for a negative
/// one; any other text is kept as an opaque value.
pub open spec fn int_value(s0: Seq<char>) -> ModelValue {
    let s = trim(s0);
    if is_negation_form(s) && parse_i64(trim(negation_inner(s))) is Some {
        ModelValue::Int((-parse_i64(trim(negation_inner(s)))->0) as i64)
    } else if parse_i64(s) is Some {
        ModelValue::Int(parse_i64(s)->0)
    } else {
        ModelValue::Opaque(s)
    }
}

/// The value of text `v` declared with sort `sort`.
pub open spec fn classify(sort: Seq<char>, v: Seq<char>) -> ModelValue {
    if sort == "Bool"@ {
        if v == "true"@ {
            ModelValue::Bool(true)
        } else if v == "false"@ {
            ModelValue::Bool(false)
        } else {
            ModelValue::Opaque(v)
        }
    } else if sort == "Int"@ {
        int_value(v)
    } else if sort == "Real"@ {
        ModelValue::Real(v)
    } else {
        ModelValue::Opaque(v)
    }
}

/// The value text of a definition's tokens `value... )`: the tokens joined
/// with single spaces, less one closing `)` and the whitespace before it.
pub open spec fn value_text(toks: Seq<Seq<char>>) -> Seq<char> {
    let raw = join_words(toks.skip(4));
    if raw.len() > 0 && raw.last() == ')' {
        trim(raw.drop_last())
    } else {
        raw
    }
}

/// The name, sort and value text of a line `(define-fun name () Sort value)`
/// (after trimming it); `None` for a line of another form or with fewer than
/// five words.
pub open spec fn definition(line: Seq<char>) -> Option<(Seq<char>, Seq<char>, Seq<char>)> {
    let t = trim(line);
    let toks = words(t);
    if !starts_with(t, "(define-fun"@) || toks.len() < 5 {
        None
    } else {
        Some((toks[1], toks[3], value_text(toks)))
    }
}

/// The name and value that a line defines, if it is a definition.
pub open spec fn parse_line(line: Seq<char>) -> Option<(Seq<char>, ModelValue)> {
    match definition(line) {
        Some((name, sort, v)) => Some((name, classify(sort, v))),
        None => None,
    }
}

/// Reading the line negates `i64::MIN`, which overflows.
pub open spec fn line_overflows(line: Seq<char>) -> bool {
    match definition(line) {
        Some((name, sort, v)) => sort == "Int"@ && negation_overflows(v),
        None => false,
    }
}

/// The map after reading the lines in order, each definition replacing an
/// earlier one of the same name.
pub open spec fn apply_lines(m: Map<Seq<char>, ModelValue>, ls: Seq<Seq<char>>) -> Map<
    Seq<char>,
    ModelValue,
>
    decreases ls.len(),
{
    if ls.len() == 0 {
        m
    } else {
        let m2 = match parse_line(ls[0]) {
            Some((name, v)) => m.insert(name, v),
            None => m,
        };
        apply_lines(m2, ls.drop_first())
    }
}

/// The values that a model text defines, by name.
pub open spec fn model_values(model: Seq<char>) -> Map<Seq<char>, ModelValue> {
    apply_lines(Map::empty(), split_lines(model))
}

/// Reading some line of the model would negate `i64::MIN`.
pub open spec fn model_overflows(model: Seq<char>) -> bool {
    exists|i: int| 0 <= i < split_lines(model).len() && line_overflows(#[trigger] split_lines(model)[i])
}

/// The map of name/value entries, a later entry replacing an earlier one of
/// the same name.
pub open spec fn entries_map(es: Seq<(String, CeValue)>) -> Map<Seq<char>, ModelValue>
    decreases es.len(),
{
    if es.len() == 0 {
        Map::empty()
    } else {
        entries_map(es.drop_last()).insert(es.last().0@, es.last().1@)
    }
}

/// No two entries have the same name.
pub open spec fn distinct_names(es: Seq<(String, CeValue)>) -> bool {
    forall|i: int, j: int| 0 <= i < j < es.len() ==> (#[trigger] es[i]).0@ != (#[trigger] es[j]).0@
}

/// With distinct names, a name is in the map exactly when an entry has it,
/// and then it maps to that entry's value.
proof fn lemma_entries_lookup(es: Seq<(String, CeValue)>, k: Seq<char>)
    requires
        distinct_names(es),
    ensures
        entries_map(es).contains_key(k) <==> exists|i: int| 0 <= i < es.len() && (#[trigger] es[i]).0@ == k,
        forall|i: int| 0 <= i < es.len() && (#[trigger] es[i]).0@ == k ==> entries_map(es)[k] == es[i].1@,
    decreases es.len(),
{
    if es.len() > 0 {
        let p = es.drop_last();
        assert(distinct_names(p));
        lemma_entries_lookup(p, k);
        if es.last().0@ != k {
            assert forall|i: int| 0 <= i < es.len() && (#[trigger] es[i]).0@ == k implies i < es.len() - 1
                && p[i] == es[i] by {}
        } else {
            assert forall|i: int| 0 <= i < es.len() && (#[trigger] es[i]).0@ == k implies i == es.len() - 1 by {
                if i < es.len() - 1 {
                    assert(es[i].0@ != es[es.len() - 1].0@);
                }
            }
        }
    }
}

/// A name/value map read from a solver's model: the concrete witness of a
/// `sat` answer.
#[derive(Debug)]
pub struct CounterExample {
    /// The values with their names, each name once. A vector holds them:
    /// vstd states a hash map's lookups only for key types whose hashing and
    /// equality it knows to be lawful, and `String` is not one of them; a
    /// vector's contents can be stated exactly.
    entries: Vec<(String, CeValue)>,
}

impl View for CounterExample {
    type V = Map<Seq<char>, ModelValue>;

    /// The values by name.
    closed spec fn view(&self) -> Map<Seq<char>, ModelValue> {
        entries_map(self.entries@)
    }
}

/// Whether `v` starts with the characters of `p`.
fn chars_start_with(v: &Vec<char>, p: &str) -> (r: bool)
    ensures
        r == starts_with(v@, p@),
{
    let pc = chars_of(p);
    if pc.len() > v.len() {
        return false;
    }
    let mut i: usize = 0;
    while i < pc.len()
        invariant
            i <= pc@.len() <= v@.len(),
            pc@ == p@,
            v@.take(i as int) == pc@.take(i as int),
        decreases pc@.len() - i,
    {
        if v[i] != pc[i] {
            assert(v@.take(pc@.len() as int)[i as int] != pc@[i as int]);
            return false;
        }
        i = i + 1;
        assert(v@.take(i as int) =~= pc@.take(i as int));
    }
    assert(pc@.take(pc@.len() as int) =~= pc@);
    true
}

/// Whether `v` holds exactly the characters of `p`.
fn chars_equal(v: &Vec<char>, p: &str) -> (r: bool)
    ensures
        r == (v@ == p@),
{
    let pc = chars_of(p);
    if pc.len() != v.len() {
        return false;
    }
    let r = chars_start_with(v, p);
    assert(v@.take(v@.len() as int) =~= v@);
    r
}

/// The value of an integer as solvers print it (see `int_value`).
fn parse_int_value(s0: &Vec<char>) -> (r: CeValue)
    requires
        !negation_overflows(s0@),
    ensures
        r@ == int_value(s0@),
{
    let s = trim_chars(s0);
    let n = s.len();
    if n >= 4 && chars_start_with(&s, "(- ") && s[n - 1] == ')' {
        let inner = copy_range(&s, 3, n - 1);
        let inner_t = trim_chars(&inner);
        match parse_i64_chars(&inner_t) {
            Some(v) => {
                return CeValue::Int(-v);
            },
            None => {},
        }
    }
    match parse_i64_chars(&s) {
        Some(v) => CeValue::Int(v),
        None => CeValue::Opaque(string_of_chars(s.as_slice())),
    }
}

/// The value of text `v` declared with sort `sort` (see `classify`).
fn classify_value(sort: &Vec<char>, v: &Vec<char>) -> (r: CeValue)
    requires
        sort@ == "Int"@ ==> !negation_overflows(v@),
    ensures
        r@ == classify(sort@, v@),
{
    if chars_equal(sort, "Bool") {
        if chars_equal(v, "true") {
            CeValue::Bool(true)
        } else if chars_equal(v, "false") {
            CeValue::Bool(false)
        } else {
            CeValue::Opaque(string_of_chars(v.as_slice()))
        }
    } else if chars_equal(sort, "Int") {
        parse_int_value(v)
    } else if chars_equal(sort, "Real") {
        CeValue::Real(string_of_chars(v.as_slice()))
    } else {
        CeValue::Opaque(string_of_chars(v.as_slice()))
    }
}

/// The name and value that a line defines (see `parse_line`).
fn read_line(line: &Vec<char>) -> (r: Option<(String, CeValue)>)
    requires
        !line_overflows(line@),
    ensures
        match r {
            Some((name, v)) => parse_line(line@) == Some((name@, v@)),
            None => parse_line(line@) is None,
        },
{
    let t = trim_chars(line);
    if !chars_start_with(&t, "(define-fun") {
        return None;
    }
    let toks = split_words(&t);
    if toks.len() < 5 {
        return None;
    }
    let raw = join_from(&toks, 4);
    let value = if raw.len() > 0 && raw[raw.len() - 1] == ')' {
        let cut = copy_range(&raw, 0, raw.len() - 1);
        proof {
            assert(cut@ =~= raw@.drop_last());
        }
        trim_chars(&cut)
    } else {
        raw
    };
    proof {
        assert(char_seqs(toks@)[1] == toks@[1]@);
        assert(char_seqs(toks@)[3] == toks@[3]@);
        assert(value@ == value_text(words(trim(line@))));
    }
    let v = classify_value(&toks[3], &value);
    let name = string_of_chars(toks[1].as_slice());
    Some((name, v))
}

/// A run of `m` characters other than `'\n'`, ended by `'\n'` or the end of
/// the text, is the first line.
proof fn lemma_line_len_run(t: Seq<char>, m: int)
    requires
        0 <= m <= t.len(),
        forall|k: int| 0 <= k < m ==> #[trigger] t[k] != '\n',
        m == t.len() || t[m] == '\n',
    ensures
        line_len(t) == m,
    decreases m,
{
    if m > 0 {
        assert forall|k: int| 0 <= k < m - 1 implies #[trigger] t.drop_first()[k] != '\n' by {
            assert(t.drop_first()[k] == t[k + 1]);
        }
        if m < t.len() {
            assert(t.drop_first()[m - 1] == t[m]);
        }
        lemma_line_len_run(t.drop_first(), m - 1);
    }
}

impl CounterExample {
    #[verifier::type_invariant]
    closed spec fn names_distinct(self) -> bool {
        distinct_names(self.entries@)
    }

    /// An empty model.
    pub fn new() -> (r: Self)
        ensures
            r@ == Map::<Seq<char>, ModelValue>::empty(),
    {
        CounterExample { entries: Vec::new() }
    }

    /// Sets the value of `name`, replacing an earlier one.
    fn set(&mut self, name: String, v: CeValue)
        ensures
            final(self)@ == old(self)@.insert(name@, v@),
    {
        proof {
            use_type_invariant(&*self);
        }
        let ghost old_entries = self.entries@;
        let mut i: usize = 0;
        while i < self.entries.len()
            invariant
                i <= self.entries@.len(),
                self.entries@ == old_entries,
                old(self).entries@ == old_entries,
                distinct_names(old_entries),
                forall|k: int| 0 <= k < i ==> (#[trigger] old_entries[k]).0@ != name@,
            decreases self.entries@.len() - i,
        {
            if self.entries[i].0 == name {
                let ghost k = name@;
                let mut entries = Vec::new();
                std::mem::swap(&mut entries, &mut self.entries);
                entries.set(i, (name, v));
                proof {
                    let es = entries@;
                    assert(distinct_names(es)) by {
                        assert forall|a: int, b: int| 0 <= a < b < es.len() implies (
                        #[trigger] es[a]).0@ != (#[trigger] es[b]).0@ by {
                            if a != i && b != i {
                                assert(old_entries[a].0@ != old_entries[b].0@);
                            } else if a == i {
                                assert(old_entries[a].0@ != old_entries[b].0@);
                            } else {
                                assert(old_entries[a].0@ != old_entries[b].0@);
                            }
                        }
                    }
                    assert forall|key: Seq<char>| true implies #[trigger] entries_map(es).contains_key(key)
                        == entries_map(old_entries).insert(k, v@).contains_key(key) && (entries_map(
                        es,
                    ).contains_key(key) ==> entries_map(es)[key] == entries_map(old_entries).insert(
                        k,
                        v@,
                    )[key]) by {
                        lemma_entries_lookup(es, key);
                        lemma_entries_lookup(old_entries, key);
                        if key != k {
                            if entries_map(es).contains_key(key) {
                                let j = choose|j: int| 0 <= j < es.len() && (#[trigger] es[j]).0@ == key;
                                assert(old_entries[j] == es[j]);
                            }
                            if entries_map(old_entries).contains_key(key) {
                                let j = choose|j: int|
                                    0 <= j < old_entries.len() && (#[trigger] old_entries[j]).0@ == key;
                                assert(old_entries[j] == es[j]);
                            }
                        } else {
                            assert(es[i as int].0@ == key);
                        }
                    }
                    assert(entries_map(es) =~= entries_map(old_entries).insert(k, v@));
                }
                self.entries = entries;
                assert(self@ == old(self)@.insert(name@, v@));
                return;
            }
            i = i + 1;
        }
        let ghost k = name@;
        let mut entries = Vec::new();
        std::mem::swap(&mut entries, &mut self.entries);
        entries.push((name, v));
        proof {
            let es = entries@;
            assert(es.drop_last() =~= old_entries);
            assert forall|a: int, b: int| 0 <= a < b < es.len() implies (#[trigger] es[a]).0@ != (
            #[trigger] es[b]).0@ by {
                if b < es.len() - 1 {
                    assert(old_entries[a].0@ != old_entries[b].0@);
                }
            }
        }
        self.entries = entries;
    }

    /// Reads a solver's model: each line of the form
    /// `(define-fun name () Sort value)` defines `name` (a later line
    /// replacing an earlier one); `Bool`, `Int` (also `(- N)`) and `Real`
    /// values are read as such, anything else is kept as opaque text. Other
    /// lines are skipped. No line may read `(- X)` with `X` the least `i64`,
    /// whose negation overflows.
    pub fn parse(model: &str) -> (r: Self)
        requires
            !model_overflows(model@),
        ensures
            r@ == model_values(model@),
    {
        let cs = chars_of(model);
        let n = cs.len();
        let mut ce = Self::new();
        let mut i: usize = 0;
        proof {
            assert(cs@.skip(0) =~= cs@);
        }
        loop
            invariant_except_break
                apply_lines(ce@, split_lines(cs@.skip(i as int))) == model_values(model@),
            invariant
                i <= n == cs@.len(),
                cs@ == model@,
                forall|l: int|
                    0 <= l < split_lines(cs@.skip(i as int)).len() ==> !line_overflows(
                        #[trigger] split_lines(cs@.skip(i as int))[l],
                    ),
            ensures
                ce@ == model_values(model@),
            decreases n - i,
        {
            let ghost rest = cs@.skip(i as int);
            let mut j = i;
            while j < n && cs[j] != '\n'
                invariant
                    i <= j <= n == cs@.len(),
                    forall|k: int| i <= k < j ==> #[trigger] cs@[k] != '\n',
                decreases n - j,
            {
                j = j + 1;
            }
            let line = copy_range(&cs, i, j);
            proof {
                assert forall|k: int| 0 <= k < j - i implies #[trigger] rest[k] != '\n' by {
                    assert(rest[k] == cs@[i + k]);
                }
                if j < n {
                    assert(rest[j - i] == cs@[j as int]);
                }
                lemma_line_len_run(rest, j - i);
                if j < n {
                    assert(rest.take(j - i) =~= line@);
                    assert(rest.skip(j - i + 1) =~= cs@.skip(j + 1));
                } else {
                    assert(rest =~= line@);
                }
                assert(split_lines(rest)[0] == line@);
                assert(!line_overflows(split_lines(rest)[0]));
            }
            let ghost before = ce@;
            match read_line(&line) {
                Some((name, v)) => ce.set(name, v),
                None => {},
            }
            proof {
                let ls = split_lines(rest);
                assert(apply_lines(before, ls) == apply_lines(ce@, ls.drop_first()));
                if j < n {
                    assert(ls.drop_first() =~= split_lines(cs@.skip(j + 1)));
                    assert forall|l: int|
                        0 <= l < split_lines(cs@.skip(j + 1)).len() implies !line_overflows(
                        #[trigger] split_lines(cs@.skip(j + 1))[l],
                    ) by {
                        assert(split_lines(cs@.skip(j + 1))[l] == ls[l + 1]);
                    }
                } else {
                    assert(ls.drop_first().len() == 0);
                }
            }
            if j >= n {
                break;
            }
            i = j + 1;
        }
        ce
    }

    /// The names that the model defines, each once, in no particular order.
    pub fn names(&self) -> (r: Vec<String>)
        ensures
            forall|k: Seq<char>| self@.contains_key(k) <==> exists|i: int| 0 <= i < r@.len() && (
            #[trigger] r@[i])@ == k,
            forall|i: int, j: int| 0 <= i < j < r@.len() ==> (#[trigger] r@[i])@ != (#[trigger] r@[j])@,
    {
        proof {
            use_type_invariant(self);
        }
        let mut r: Vec<String> = Vec::new();
        let mut i: usize = 0;
        while i < self.entries.len()
            invariant
                i <= self.entries@.len(),
                r@.len() == i,
                forall|k: int| 0 <= k < i ==> (#[trigger] r@[k]) == self.entries@[k].0,
            decreases self.entries@.len() - i,
        {
            r.push(self.entries[i].0.clone());
            i = i + 1;
        }
        proof {
            assert forall|k: Seq<char>| self@.contains_key(k) <==> exists|m: int|
                0 <= m < r@.len() && (#[trigger] r@[m])@ == k by {
                lemma_entries_lookup(self.entries@, k);
                if self@.contains_key(k) {
                    let m = choose|m: int| 0 <= m < self.entries@.len() && (#[trigger] self.entries@[m]).0@ == k;
                    assert(r@[m]@ == k);
                }
                if exists|m: int| 0 <= m < r@.len() && (#[trigger] r@[m])@ == k {
                    let m = choose|m: int| 0 <= m < r@.len() && (#[trigger] r@[m])@ == k;
                    assert(self.entries@[m].0@ == k);
                }
            }
            assert forall|a: int, b: int| 0 <= a < b < r@.len() implies (#[trigger] r@[a])@ != (
            #[trigger] r@[b])@ by {
                assert(self.entries@[a].0@ != self.entries@[b].0@);
            }
        }
        r
    }

    /// The value of `name`, if the model defines it.
    pub fn get(&self, name: &str) -> (r: Option<&CeValue>)
        ensures
            match r {
                Some(v) => self@.contains_key(name@) && v@ == self@[name@],
                None => !self@.contains_key(name@),
            },
    {
        proof {
            use_type_invariant(self);
            lemma_entries_lookup(self.entries@, name@);
        }
        let key = name.to_owned();
        let mut i: usize = 0;
        while i < self.entries.len()
            invariant
                i <= self.entries@.len(),
                key@ == name@,
                forall|k: int| 0 <= k < i ==> (#[trigger] self.entries@[k]).0@ != name@,
            decreases self.entries@.len() - i,
        {
            if self.entries[i].0 == key {
                proof {
                    use_type_invariant(self);
                    lemma_entries_lookup(self.entries@, name@);
                }
                return Some(&self.entries[i].1);
            }
            i = i + 1;
        }
        None
    }

    /// The integer value of `name`, if the model defines it as one.
    pub fn get_int(&self, name: &str) -> (r: Option<i64>)
        ensures
            r == (if self@.contains_key(name@) && self@[name@] is Int {
                Some(self@[name@]->Int_0)
            } else {
                None
            }),
    {
        match self.get(name) {
            Some(CeValue::Int(n)) => Some(*n),
            _ => None,
        }
    }

    /// The boolean value of `name`, if the model defines it as one.
    pub fn get_bool(&self, name: &str) -> (r: Option<bool>)
        ensures
            r == (if self@.contains_key(name@) && self@[name@] is Bool {
                Some(self@[name@]->Bool_0)
            } else {
                None
            }),
    {
        match self.get(name) {
            Some(CeValue::Bool(b)) => Some(*b),
            _ => None,
        }
    }

    /// The text of the real value of `name`, if the model defines it as one.
    pub fn get_real(&self, name: &str) -> (r: Option<&str>)
        ensures
            match r {
                Some(s) => self@.contains_key(name@) && self@[name@] == ModelValue::Real(s@),
                None => !(self@.contains_key(name@) && self@[name@] is Real),
            },
    {
        match self.get(name) {
            Some(CeValue::Real(s)) => Some(s.as_str()),
            _ => None,
        }
    }
}

impl Clone for CounterExample {
    fn clone(&self) -> (r: Self)
        ensures
            r@ == self@,
    {
        proof {
            use_type_invariant(self);
        }
        let mut entries: Vec<(String, CeValue)> = Vec::new();
        let mut i: usize = 0;
        while i < self.entries.len()
            invariant
                i <= self.entries@.len(),
                entries@ == self.entries@.take(i as int),
            decreases self.entries@.len() - i,
        {
            let name = self.entries[i].0.clone();
            let v = self.entries[i].1.clone();
            entries.push((name, v));
            i = i + 1;
            assert(entries@ =~= self.entries@.take(i as int));
        }
        assert(entries@ =~= self.entries@);
        CounterExample { entries }
    }
}

impl Default for CounterExample {
    fn default() -> (r: Self)
        ensures
            r@ == Map::<Seq<char>, ModelValue>::empty(),
    {
        Self::new()
    }
}

} // verus!
