//! Requirement traces: the doc line and the constant that `#[traces(..)]`
//! attaches to a function.
use vstd::prelude::*;
use crate::text::{chars_of, push_char, push_str, push_string, string_of_chars};

verus! {

/// Whether `c` has the Unicode `Uppercase` property, as `char::is_uppercase`
/// reports it.
pub uninterp spec fn uppercase_letter(c: char) -> bool;

/// The characters of the Unicode upper-case mapping of `c`, as
/// `char::to_uppercase` yields them.
pub uninterp spec fn upper_form(c: char) -> Seq<char>;

/// `char::is_uppercase`: whether `c` has the Unicode `Uppercase` property.
/// The answer depends on `c` alone.
#[verifier::external_body]
fn is_uppercase(c: char) -> (r: bool)
    ensures
        r == uppercase_letter(c),
{
    c.is_uppercase()
}

/// `char::to_uppercase`: the characters of the upper-case mapping of `c`,
/// collected in the order the iterator yields them. They depend on `c`
/// alone.
#[verifier::external_body]
fn to_uppercase(c: char) -> (r: Vec<char>)
    ensures
        r@ == upper_form(c),
{
    c.to_uppercase().collect()
}

/// UPPER_SNAKE_CASE of `cs`, where `prev_lower` tells whether the character
/// before `cs` was neither upper case nor an underscore: an underscore goes
/// before an upper-case letter that follows such a character, underscores
/// stay, and every other character is mapped to upper case.
pub open spec fn upper_snake_from(cs: Seq<char>, prev_lower: bool) -> Seq<char>
    decreases cs.len(),
{
    if cs.len() == 0 {
        Seq::empty()
    } else {
        let c = cs[0];
        let rest = cs.drop_first();
        if uppercase_letter(c) {
            (if prev_lower {
                seq!['_']
            } else {
                Seq::empty()
            }) + upper_form(c) + upper_snake_from(rest, false)
        } else if c == '_' {
            seq!['_'] + upper_snake_from(rest, false)
        } else {
            upper_form(c) + upper_snake_from(rest, true)
        }
    }
}

/// UPPER_SNAKE_CASE of an identifier such as `do_work` or `camelCaseFn`.
pub open spec fn upper_snake(name: Seq<char>) -> Seq<char> {
    upper_snake_from(name, false)
}

/// The items of `parts` with `sep` between each two.
pub open spec fn joined(parts: Seq<Seq<char>>, sep: Seq<char>) -> Seq<char>
    decreases parts.len(),
{
    if parts.len() == 0 {
        Seq::empty()
    } else if parts.len() == 1 {
        parts[0]
    } else {
        joined(parts.drop_last(), sep) + sep + parts.last()
    }
}

/// Converts an identifier (such as `do_work` or `Throttle`) to
/// UPPER_SNAKE_CASE.
pub fn to_upper_snake(name: &str) -> (r: String)
    ensures
        r@ == upper_snake(name@),
{
    let cs = chars_of(name);
    let mut out = String::new();
    let mut prev_lower = false;
    let mut i: usize = 0;
    proof {
        assert(cs@.skip(0) =~= cs@);
        assert(out@ + upper_snake_from(cs@.skip(0), false) =~= upper_snake(name@));
    }
    while i < cs.len()
        invariant
            i <= cs@.len(),
            cs@ == name@,
            out@ + upper_snake_from(cs@.skip(i as int), prev_lower) == upper_snake(name@),
        decreases cs@.len() - i,
    {
        let ch = cs[i];
        proof {
            assert(cs@.skip(i as int)[0] == ch);
            assert(cs@.skip(i as int).drop_first() =~= cs@.skip(i + 1));
        }
        let ghost before = out@;
        let ghost pl = prev_lower;
        if is_uppercase(ch) {
            if prev_lower {
                push_char(&mut out, '_');
            }
            let up = string_of_chars(to_uppercase(ch).as_slice());
            push_string(&mut out, &up);
            prev_lower = false;
        } else if ch == '_' {
            push_char(&mut out, '_');
            prev_lower = false;
        } else {
            let up = string_of_chars(to_uppercase(ch).as_slice());
            push_string(&mut out, &up);
            prev_lower = true;
        }
        proof {
            assert(out@ + upper_snake_from(cs@.skip(i + 1), prev_lower) =~= before
                + upper_snake_from(cs@.skip(i as int), pl));
        }
        i = i + 1;
    }
    proof {
        assert(cs@.skip(cs@.len() as int) =~= Seq::<char>::empty());
        assert(out@ + Seq::<char>::empty() =~= out@);
    }
    out
}

/// The name of the constant that holds the requirement ids of the function
/// `fn_name`: `__TPT_TRACES_` followed by the name in UPPER_SNAKE_CASE.
pub fn trace_const_name(fn_name: &str) -> (r: String)
    ensures
        r@ == "__TPT_TRACES_"@ + upper_snake(fn_name@),
{
    let mut r = String::new();
    push_str(&mut r, "__TPT_TRACES_");
    let tail = to_upper_snake(fn_name);
    push_string(&mut r, &tail);
    r
}

/// The doc line that lists the requirement ids: `**Traces:** ` followed by
/// the ids separated by `, `.
pub fn traces_doc(ids: &[String]) -> (r: String)
    ensures
        r@ == "**Traces:** "@ + joined(ids@.map_values(|s: String| s@), ", "@),
{
    let ghost parts = ids@.map_values(|s: String| s@);
    let mut r = String::new();
    push_str(&mut r, "**Traces:** ");
    let ghost head = r@;
    let mut i: usize = 0;
    while i < ids.len()
        invariant
            i <= ids@.len(),
            parts == ids@.map_values(|s: String| s@),
            head == "**Traces:** "@,
            r@ == head + joined(parts.take(i as int), ", "@),
        decreases ids@.len() - i,
    {
        if i > 0 {
            push_str(&mut r, ", ");
        }
        push_string(&mut r, &ids[i]);
        proof {
            assert(parts.take(i + 1).drop_last() =~= parts.take(i as int));
            assert(parts.take(i + 1).last() == ids@[i as int]@);
            if i == 0 {
                assert(parts.take(1).len() == 1);
            }
        }
        i = i + 1;
    }
    proof {
        assert(parts.take(ids@.len() as int) =~= parts);
    }
    r
}

} // verus!
