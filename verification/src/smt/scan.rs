//! Scanning text: whitespace, trimming, words, lines and decimal integers,
//! as Rust's `str` methods define them.
use vstd::prelude::*;

verus! {

/// Whether `c` is whitespace in Unicode's sense (`char::is_whitespace`).
pub open spec fn is_ws(c: char) -> bool {
    c == '\t' || c == '\n' || c == '\u{0B}' || c == '\u{0C}' || c == '\r' || c == ' ' || c
        == '\u{85}' || c == '\u{A0}' || c == '\u{1680}' || ('\u{2000}' <= c && c <= '\u{200A}')
        || c == '\u{2028}' || c == '\u{2029}' || c == '\u{202F}' || c == '\u{205F}' || c
        == '\u{3000}'
}

/// `s` without its leading whitespace.
pub open spec fn trim_start(s: Seq<char>) -> Seq<char>
    decreases s.len(),
{
    if s.len() > 0 && is_ws(s[0]) {
        trim_start(s.drop_first())
    } else {
        s
    }
}

/// `s` without its trailing whitespace.
pub open spec fn trim_end(s: Seq<char>) -> Seq<char>
    decreases s.len(),
{
    if s.len() > 0 && is_ws(s.last()) {
        trim_end(s.drop_last())
    } else {
        s
    }
}

/// `s` without leading and trailing whitespace (`str::trim`).
pub open spec fn trim(s: Seq<char>) -> Seq<char> {
    trim_end(trim_start(s))
}

/// The length of the run of non-whitespace characters that `s` starts with.
pub open spec fn word_len(s: Seq<char>) -> nat
    decreases s.len(),
{
    if s.len() == 0 || is_ws(s[0]) {
        0
    } else {
        1 + word_len(s.drop_first())
    }
}

/// The maximal runs of non-whitespace characters of `s`, in order
/// (`str::split_whitespace`).
pub open spec fn words(s: Seq<char>) -> Seq<Seq<char>>
    decreases s.len(),
{
    let t = trim_start(s);
    if t.len() == 0 {
        Seq::empty()
    } else {
        proof {
            lemma_trim_start_len(s);
            lemma_word_len_bound(t);
        }
        seq![t.take(word_len(t) as int)] + words(t.skip(word_len(t) as int))
    }
}

/// The words joined with single spaces (`[..].join(" ")`).
pub open spec fn join_words(ws: Seq<Seq<char>>) -> Seq<char>
    decreases ws.len(),
{
    if ws.len() == 0 {
        Seq::empty()
    } else if ws.len() == 1 {
        ws[0]
    } else {
        join_words(ws.drop_last()) + seq![' '] + ws.last()
    }
}

/// The length of the line that `s` starts with: the characters before the
/// first `'\n'`.
pub open spec fn line_len(s: Seq<char>) -> nat
    decreases s.len(),
{
    if s.len() == 0 || s[0] == '\n' {
        0
    } else {
        1 + line_len(s.drop_first())
    }
}

/// The pieces of `s` between `'\n'` characters, in order (the last piece
/// is empty when `s` ends with `'\n'`).
pub open spec fn split_lines(s: Seq<char>) -> Seq<Seq<char>>
    decreases s.len(),
{
    let k = line_len(s);
    proof {
        lemma_line_len_bound(s);
    }
    if k >= s.len() {
        seq![s]
    } else {
        seq![s.take(k as int)] + split_lines(s.skip(k as int + 1))
    }
}

/// Whether `c` is an ASCII decimal digit.
pub open spec fn is_digit(c: char) -> bool {
    '0' <= c && c <= '9'
}

/// The value of a string of decimal digits.
pub open spec fn digits_value(ds: Seq<char>) -> nat
    decreases ds.len(),
{
    if ds.len() == 0 {
        0
    } else {
        digits_value(ds.drop_last()) * 10 + (ds.last() as nat - '0' as nat) as nat
    }
}

/// Every character is an ASCII decimal digit.
pub open spec fn all_digits(s: Seq<char>) -> bool {
    forall|i: int| 0 <= i < s.len() ==> is_digit(#[trigger] s[i])
}

/// The digits after an optional leading sign.
pub open spec fn unsigned_part(s: Seq<char>) -> Seq<char> {
    if s.len() > 0 && (s[0] == '-' || s[0] == '+') {
        s.drop_first()
    } else {
        s
    }
}

/// The `i64` that `s` denotes as Rust's `str::parse::<i64>` reads it: an
/// optional `+` or `-`, then one or more ASCII digits, the value within the
/// range of `i64`; `None` for anything else.
pub open spec fn parse_i64(s: Seq<char>) -> Option<i64> {
    if s.len() == 0 {
        None
    } else {
        let neg = s[0] == '-';
        let body = unsigned_part(s);
        if body.len() == 0 || !all_digits(body) {
            None
        } else if neg {
            if digits_value(body) <= 0x8000_0000_0000_0000 {
                Some((-digits_value(body)) as i64)
            } else {
                None
            }
        } else if digits_value(body) <= 0x7fff_ffff_ffff_ffff {
            Some(digits_value(body) as i64)
        } else {
            None
        }
    }
}

/// Trimming the start never lengthens.
pub proof fn lemma_trim_start_len(s: Seq<char>)
    ensures
        trim_start(s).len() <= s.len(),
        trim_start(s).len() == 0 || !is_ws(trim_start(s)[0]),
    decreases s.len(),
{
    if s.len() > 0 && is_ws(s[0]) {
        lemma_trim_start_len(s.drop_first());
    }
}

/// A word is no longer than the text, and a text that starts with a
/// non-whitespace character starts with a non-empty word.
pub proof fn lemma_word_len_bound(s: Seq<char>)
    ensures
        word_len(s) <= s.len(),
        s.len() > 0 && !is_ws(s[0]) ==> word_len(s) >= 1,
    decreases s.len(),
{
    if s.len() > 0 && !is_ws(s[0]) {
        lemma_word_len_bound(s.drop_first());
    }
}

/// A line is no longer than the text.
pub proof fn lemma_line_len_bound(s: Seq<char>)
    ensures
        line_len(s) <= s.len(),
    decreases s.len(),
{
    if s.len() > 0 && s[0] != '\n' {
        lemma_line_len_bound(s.drop_first());
    }
}

/// Whether `c` is whitespace (`char::is_whitespace`).
pub fn is_whitespace(c: char) -> (r: bool)
    ensures
        r == is_ws(c),
{
    c == '\t' || c == '\n' || c == '\u{0B}' || c == '\u{0C}' || c == '\r' || c == ' ' || c
        == '\u{85}' || c == '\u{A0}' || c == '\u{1680}' || ('\u{2000}' <= c && c <= '\u{200A}')
        || c == '\u{2028}' || c == '\u{2029}' || c == '\u{202F}' || c == '\u{205F}' || c
        == '\u{3000}'
}

/// The characters `cs[lo..hi]`.
pub fn copy_range(cs: &Vec<char>, lo: usize, hi: usize) -> (r: Vec<char>)
    requires
        lo <= hi <= cs@.len(),
    ensures
        r@ == cs@.subrange(lo as int, hi as int),
{
    let mut r: Vec<char> = Vec::new();
    let mut i = lo;
    while i < hi
        invariant
            lo <= i <= hi <= cs@.len(),
            r@ == cs@.subrange(lo as int, i as int),
        decreases hi - i,
    {
        r.push(cs[i]);
        i = i + 1;
        assert(r@ =~= cs@.subrange(lo as int, i as int));
    }
    r
}

/// Dropping leading whitespace one character at a time.
proof fn lemma_trim_start_step(s: Seq<char>, i: int)
    requires
        0 <= i < s.len(),
        is_ws(s[i]),
    ensures
        trim_start(s.skip(i)) == trim_start(s.skip(i + 1)),
{
    assert(s.skip(i).drop_first() =~= s.skip(i + 1));
}

/// Dropping trailing whitespace one character at a time.
proof fn lemma_trim_end_step(s: Seq<char>, j: int)
    requires
        0 < j <= s.len(),
        is_ws(s[j - 1]),
    ensures
        trim_end(s.take(j)) == trim_end(s.take(j - 1)),
{
    assert(s.take(j).drop_last() =~= s.take(j - 1));
}

/// `cs` without leading and trailing whitespace (`str::trim`).
pub fn trim_chars(cs: &Vec<char>) -> (r: Vec<char>)
    ensures
        r@ == trim(cs@),
{
    let n = cs.len();
    let mut lo: usize = 0;
    assert(cs@.skip(0) =~= cs@);
    while lo < n && is_whitespace(cs[lo])
        invariant
            lo <= n == cs@.len(),
            trim_start(cs@) == trim_start(cs@.skip(lo as int)),
        decreases n - lo,
    {
        proof {
            lemma_trim_start_step(cs@, lo as int);
        }
        lo = lo + 1;
    }
    let ghost rest = cs@.skip(lo as int);
    proof {
        assert(cs@.skip(0) =~= cs@);
        assert(trim_start(rest) == rest);
        assert(trim_start(cs@) == rest);
    }
    let mut hi: usize = n;
    assert(rest.take(n - lo) =~= rest);
    while hi > lo && is_whitespace(cs[hi - 1])
        invariant
            lo <= hi <= n == cs@.len(),
            rest == cs@.skip(lo as int),
            trim_end(rest) == trim_end(rest.take(hi - lo)),
        decreases hi,
    {
        proof {
            lemma_trim_end_step(rest, hi - lo);
        }
        hi = hi - 1;
    }
    proof {
        assert(rest.take(n - lo) =~= rest);
        let t = rest.take(hi - lo);
        assert(t =~= cs@.subrange(lo as int, hi as int));
        assert(trim_end(t) == t);
    }
    copy_range(cs, lo, hi)
}

/// The views of a list of character vectors.
pub open spec fn char_seqs(v: Seq<Vec<char>>) -> Seq<Seq<char>> {
    v.map_values(|w: Vec<char>| w@)
}

/// A run of `m` non-whitespace characters ended by whitespace or the end of
/// the text is the first word.
proof fn lemma_word_len_run(t: Seq<char>, m: int)
    requires
        0 <= m <= t.len(),
        forall|k: int| 0 <= k < m ==> !is_ws(#[trigger] t[k]),
        m == t.len() || is_ws(t[m]),
    ensures
        word_len(t) == m,
    decreases m,
{
    if m > 0 {
        assert forall|k: int| 0 <= k < m - 1 implies !is_ws(#[trigger] t.drop_first()[k]) by {
            assert(t.drop_first()[k] == t[k + 1]);
        }
        if m < t.len() {
            assert(t.drop_first()[m - 1] == t[m]);
        }
        lemma_word_len_run(t.drop_first(), m - 1);
    }
}

/// Leading whitespace does not change the words.
proof fn lemma_words_skip_ws(s: Seq<char>, i: int)
    requires
        0 <= i < s.len(),
        is_ws(s[i]),
    ensures
        words(s.skip(i)) == words(s.skip(i + 1)),
{
    lemma_trim_start_step(s, i);
}

/// The words of `cs` (`str::split_whitespace`).
pub fn split_words(cs: &Vec<char>) -> (r: Vec<Vec<char>>)
    ensures
        char_seqs(r@) == words(cs@),
{
    let n = cs.len();
    let mut acc: Vec<Vec<char>> = Vec::new();
    let mut i: usize = 0;
    assert(cs@.skip(0) =~= cs@);
    while i < n
        invariant
            i <= n == cs@.len(),
            char_seqs(acc@) + words(cs@.skip(i as int)) == words(cs@),
        decreases n - i,
    {
        if is_whitespace(cs[i]) {
            proof {
                lemma_words_skip_ws(cs@, i as int);
            }
            i = i + 1;
        } else {
            let mut j = i;
            while j < n && !is_whitespace(cs[j])
                invariant
                    i <= j <= n == cs@.len(),
                    forall|k: int| i <= k < j ==> !is_ws(#[trigger] cs@[k]),
                decreases n - j,
            {
                j = j + 1;
            }
            let w = copy_range(cs, i, j);
            proof {
                let t = cs@.skip(i as int);
                assert(trim_start(t) == t);
                assert forall|k: int| 0 <= k < j - i implies !is_ws(#[trigger] t[k]) by {
                    assert(t[k] == cs@[i + k]);
                }
                if j < n {
                    assert(t[j - i] == cs@[j as int]);
                }
                lemma_word_len_run(t, j - i);
                assert(t.take(j - i) =~= w@);
                assert(t.skip(j - i) =~= cs@.skip(j as int));
                assert(words(t) == seq![w@] + words(cs@.skip(j as int)));
            }
            let ghost before = acc@;
            acc.push(w);
            proof {
                assert(char_seqs(acc@) =~= char_seqs(before).push(w@));
                assert(char_seqs(acc@) + words(cs@.skip(j as int)) =~= char_seqs(before) + words(
                    cs@.skip(i as int),
                ));
            }
            i = j;
        }
    }
    proof {
        assert(cs@.skip(n as int) =~= Seq::<char>::empty());
        assert(words(cs@.skip(n as int)) =~= Seq::<Seq<char>>::empty());
        assert(char_seqs(acc@) + Seq::<Seq<char>>::empty() =~= char_seqs(acc@));
    }
    acc
}

/// The words `ws[lo..]` joined with single spaces.
pub fn join_from(ws: &Vec<Vec<char>>, lo: usize) -> (r: Vec<char>)
    requires
        lo <= ws@.len(),
    ensures
        r@ == join_words(char_seqs(ws@).skip(lo as int)),
{
    let n = ws.len();
    let mut r: Vec<char> = Vec::new();
    let mut i = lo;
    while i < n
        invariant
            lo <= i <= n == ws@.len(),
            r@ == join_words(char_seqs(ws@).subrange(lo as int, i as int)),
        decreases n - i,
    {
        if i > lo {
            r.push(' ');
        }
        let w = &ws[i];
        let mut k: usize = 0;
        let ghost before = r@;
        while k < w.len()
            invariant
                k <= w@.len(),
                r@ == before + w@.take(k as int),
            decreases w@.len() - k,
        {
            r.push(w[k]);
            k = k + 1;
            assert(r@ =~= before + w@.take(k as int));
        }
        proof {
            let post = char_seqs(ws@).subrange(lo as int, i + 1);
            assert(post.drop_last() =~= char_seqs(ws@).subrange(lo as int, i as int));
            assert(post.last() == w@);
            assert(w@.take(w@.len() as int) =~= w@);
            if i == lo {
                assert(post.len() == 1);
                assert(before.len() == 0);
            }
            assert(r@ =~= join_words(post));
        }
        i = i + 1;
    }
    assert(char_seqs(ws@).subrange(lo as int, n as int) =~= char_seqs(ws@).skip(lo as int));
    r
}

/// Extending a string of digits by one digit.
proof fn lemma_digits_step(s: Seq<char>, i: int)
    requires
        0 <= i < s.len(),
        is_digit(s[i]),
    ensures
        digits_value(s.take(i + 1)) == digits_value(s.take(i)) * 10 + (s[i] as nat - '0' as nat) as nat,
{
    assert(s.take(i + 1).drop_last() =~= s.take(i));
}

/// The `i64` that `cs` denotes (`str::parse::<i64>`), or `None`.
pub fn parse_i64_chars(cs: &Vec<char>) -> (r: Option<i64>)
    ensures
        r == parse_i64(cs@),
{
    let n = cs.len();
    if n == 0 {
        return None;
    }
    let neg = cs[0] == '-';
    let start: usize = if cs[0] == '-' || cs[0] == '+' {
        1
    } else {
        0
    };
    if start == n {
        proof {
            assert(cs@.drop_first().len() == 0);
        }
        return None;
    }
    let ghost body = unsigned_part(cs@);
    assert(body =~= cs@.skip(start as int));
    let mut acc: u128 = 0;
    let mut over = false;
    let mut i = start;
    while i < n
        invariant
            start <= i <= n == cs@.len(),
            start < n,
            body == cs@.skip(start as int),
            body == unsigned_part(cs@),
            neg == (cs@[0] == '-'),
            forall|k: int| start <= k < i ==> is_digit(#[trigger] cs@[k]),
            !over ==> acc == digits_value(body.take(i - start)),
            !over ==> acc <= 0x8000_0000_0000_0000,
            over ==> digits_value(body.take(i - start)) > 0x8000_0000_0000_0000,
        decreases n - i,
    {
        let c = cs[i];
        if !('0' <= c && c <= '9') {
            proof {
                assert(body[i - start] == c);
                assert(!is_digit(body[i - start]));
                assert(!all_digits(body));
            }
            return None;
        }
        proof {
            assert(body[i - start] == c);
            lemma_digits_step(body, i - start);
        }
        if !over {
            let d = (c as u32 - '0' as u32) as u128;
            acc = acc * 10 + d;
            if acc > 0x8000_0000_0000_0000 {
                over = true;
            }
        }
        i = i + 1;
    }
    proof {
        assert(body.take(n - start) =~= body);
        assert forall|k: int| 0 <= k < body.len() implies is_digit(#[trigger] body[k]) by {
            assert(body[k] == cs@[start + k]);
        }
        assert(all_digits(body));
    }
    if over {
        return None;
    }
    if neg {
        if acc == 0x8000_0000_0000_0000 {
            Some(i64::MIN)
        } else {
            Some(-(acc as i64))
        }
    } else if acc <= 0x7fff_ffff_ffff_ffff {
        Some(acc as i64)
    } else {
        None
    }
}

} // verus!
