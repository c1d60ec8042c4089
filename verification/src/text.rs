//! Decimal text of integers and small string-building helpers shared by the
//! formatting code of the library.
use vstd::prelude::*;

verus! {

/// The ASCII character of a decimal digit `d` (`0 <= d < 10`).
pub open spec fn digit_char(d: nat) -> char {
    (48 + d) as char
}

/// The decimal digits of a natural number, most significant first, without
/// leading zeros (`0` is written `"0"`).
pub open spec fn nat_text(n: nat) -> Seq<char>
    decreases n,
{
    if n < 10 {
        seq![digit_char(n)]
    } else {
        nat_text(n / 10).push(digit_char(n % 10))
    }
}

/// The decimal text of an integer: a leading `-` for negative values, then
/// the digits of its magnitude.
pub open spec fn int_text(v: int) -> Seq<char> {
    if v < 0 {
        seq!['-'] + nat_text((-v) as nat)
    } else {
        nat_text(v as nat)
    }
}

/// The decimal text of a 64-bit integer.
pub open spec fn decimal_i64(v: i64) -> Seq<char> {
    int_text(v as int)
}

/// `s` padded on the left with `c` up to at least `width` characters.
pub open spec fn pad_left(s: Seq<char>, width: nat, c: char) -> Seq<char> {
    if s.len() >= width {
        s
    } else {
        Seq::new((width - s.len()) as nat, |i: int| c) + s
    }
}

/// Appends one character to a `String` (`String::push`).
#[verifier::external_body]
pub(crate) fn push_char(s: &mut String, c: char)
    ensures
        final(s)@ == old(s)@.push(c),
{
    s.push(c);
}

/// Appends the characters of `t` to `s`.
pub fn push_str(s: &mut String, t: &str)
    ensures
        final(s)@ == old(s)@ + t@,
{
    s.append(t);
}

/// Appends the characters of a `String` to `s`.
pub fn push_string(s: &mut String, t: &String)
    ensures
        final(s)@ == old(s)@ + t@,
{
    s.append(t.as_str());
}

/// The characters of a slice of chars collected into a `String`.
pub fn string_of_chars(cs: &[char]) -> (s: String)
    ensures
        s@ == cs@,
{
    let mut s = String::new();
    let mut i: usize = 0;
    while i < cs.len()
        invariant
            i <= cs@.len(),
            s@ == cs@.subrange(0, i as int),
        decreases cs@.len() - i,
    {
        push_char(&mut s, cs[i]);
        i = i + 1;
        assert(s@ =~= cs@.subrange(0, i as int));
    }
    assert(cs@.subrange(0, cs@.len() as int) =~= cs@);
    s
}

/// The characters of a string, in order.
pub fn chars_of(s: &str) -> (v: Vec<char>)
    ensures
        v@ == s@,
{
    let mut v: Vec<char> = Vec::new();
    for c in it: s.chars()
        invariant
            v@ == it.seq().take(it.index() as int),
    {
        v.push(c);
    }
    assert(v@ =~= s@);
    v
}

/// The ASCII digit for `d < 10`.
pub fn digit(d: u64) -> (c: char)
    requires
        d < 10,
    ensures
        c == digit_char(d as nat),
{
    let b: u8 = 48u8 + (d as u8);
    b as char
}

/// Appends the decimal digits of `n`.
pub fn write_u64(s: &mut String, n: u64)
    ensures
        final(s)@ == old(s)@ + nat_text(n as nat),
    decreases n,
{
    if n >= 10 {
        write_u64(s, n / 10);
    }
    let c = digit(n % 10);
    push_char(s, c);
    proof {
        if n >= 10 {
            assert(nat_text(n as nat) == nat_text((n / 10) as nat).push(digit_char((n % 10) as nat)));
        }
    }
}

/// Appends the decimal text of `v`: a `-` for negative values, then the
/// digits of its magnitude.
pub fn write_i64(s: &mut String, v: i64)
    ensures
        final(s)@ == old(s)@ + int_text(v as int),
{
    if v < 0 {
        push_char(s, '-');
        let m: u64 = if v == i64::MIN {
            9223372036854775808u64
        } else {
            (-v) as u64
        };
        write_u64(s, m);
    } else {
        write_u64(s, v as u64);
    }
}

/// The decimal text of `v` as a new `String`.
pub fn i64_text(v: i64) -> (s: String)
    ensures
        s@ == int_text(v as int),
{
    let mut s = String::new();
    write_i64(&mut s, v);
    s
}

/// `t` stands in `s` at position `i`.
pub open spec fn occurs_at(s: Seq<char>, t: Seq<char>, i: int) -> bool {
    0 <= i && i + t.len() <= s.len() && s.subrange(i, i + t.len()) == t
}

/// `t` stands somewhere in `s`.
pub open spec fn occurs(s: Seq<char>, t: Seq<char>) -> bool {
    exists|i: int| occurs_at(s, t, i)
}

/// A piece of `s` stays in place when text is added after `s`, and moves by
/// the length of what is added before it.
pub proof fn lemma_occurs_at_within(p: Seq<char>, s: Seq<char>, q: Seq<char>, t: Seq<char>, i: int)
    requires
        occurs_at(s, t, i),
    ensures
        occurs_at(p + s + q, t, i + p.len()),
        occurs_at(s + q, t, i),
{
    assert((p + s + q).subrange(i + p.len(), i + p.len() + t.len()) =~= s.subrange(i, i + t.len()));
    assert((s + q).subrange(i, i + t.len()) =~= s.subrange(i, i + t.len()));
}

/// The value of a string of decimal digits read most significant first
/// (`"42"` is forty-two); `0` for the empty string.
pub open spec fn digits_value(s: Seq<char>) -> int
    decreases s.len(),
{
    if s.len() == 0 {
        0
    } else {
        digits_value(s.drop_last()) * 10 + ((s.last() as int) - 48)
    }
}

/// Every character of `s` is a decimal digit.
pub open spec fn all_digits(s: Seq<char>) -> bool {
    forall|k: int| 0 <= k < s.len() ==> '0' <= #[trigger] s[k] && s[k] <= '9'
}

/// `s` is a well-formed decimal numeral: digits, at least one, and no
/// leading zero except in `"0"` itself.
pub open spec fn numeral(s: Seq<char>) -> bool {
    &&& s.len() > 0
    &&& all_digits(s)
    &&& (s[0] == '0' ==> s.len() == 1)
}

/// A digit character stands for its digit.
proof fn lemma_digit_char(d: nat)
    requires
        d < 10,
    ensures
        digit_char(d) as int == 48 + d,
        '0' <= digit_char(d) <= '9',
        d > 0 ==> digit_char(d) != '0',
{
    assert(digit_char(d) as int == 48 + d);
}

/// The written digits of `n` are a numeral that reads back as `n`.
pub proof fn lemma_nat_text_reads_back(n: nat)
    ensures
        numeral(nat_text(n)),
        digits_value(nat_text(n)) == n,
        n > 0 ==> nat_text(n)[0] != '0',
    decreases n,
{
    lemma_digit_char(n % 10);
    if n < 10 {
        lemma_digit_char(n);
        let t = nat_text(n);
        assert(t.drop_last() =~= Seq::<char>::empty());
        assert(t[0] == digit_char(n));
        assert(t.last() == digit_char(n));
        assert(digits_value(t) == digits_value(t.drop_last()) * 10 + ((t.last() as int) - 48));
        assert(digits_value(Seq::<char>::empty()) == 0);
        assert(all_digits(t));
    } else {
        lemma_nat_text_reads_back(n / 10);
        let t = nat_text(n);
        assert(t == nat_text(n / 10).push(digit_char(n % 10)));
        assert(t.drop_last() =~= nat_text(n / 10));
        assert(t.last() == digit_char(n % 10));
        assert(t[0] == nat_text(n / 10)[0]);
        assert(digits_value(t) == digits_value(t.drop_last()) * 10 + ((t.last() as int) - 48));
        assert((n / 10) * 10 + n % 10 == n);
        assert forall|k: int| 0 <= k < t.len() implies '0' <= #[trigger] t[k] && t[k] <= '9' by {
            if k < t.len() - 1 {
                assert(t[k] == nat_text(n / 10)[k]);
            }
        }
    }
}

/// The text of an integer reads back as that integer: a `-` exactly for a
/// negative value, followed by a numeral whose value is the magnitude.
pub proof fn lemma_int_text_reads_back(v: int)
    ensures
        v < 0 ==> int_text(v).len() > 0 && int_text(v)[0] == '-' && numeral(int_text(v).drop_first())
            && -digits_value(int_text(v).drop_first()) == v,
        v >= 0 ==> numeral(int_text(v)) && digits_value(int_text(v)) == v,
{
    if v < 0 {
        lemma_nat_text_reads_back((-v) as nat);
        assert(int_text(v).drop_first() =~= nat_text((-v) as nat));
    } else {
        lemma_nat_text_reads_back(v as nat);
    }
}

} // verus!
