//! Character-level helpers shared by the parsers.

use vstd::prelude::*;

verus! {

/// Appends `c` to `s` (`String::push`).
#[verifier::external_body]
pub(crate) fn push_char(s: &mut String, c: char)
    ensures
        final(s)@ == old(s)@.push(c),
{
    s.push(c);
}

/// The characters of `s`, in order.
pub fn chars_of(s: &str) -> (r: Vec<char>)
    ensures
        r@ == s@,
{
    let mut r: Vec<char> = Vec::new();
    for c in it: s.chars()
        invariant
            r@ == it.seq().take(it.index() as int),
            it.seq() == s@,
    {
        r.push(c);
    }
    r
}

/// The string made of `cs`.
pub fn string_of(cs: &[char]) -> (r: String)
    ensures
        r@ == cs@,
{
    let mut r = String::new();
    let mut i: usize = 0;
    while i < cs.len()
        invariant
            i <= cs@.len(),
            r@ == cs@.take(i as int),
        decreases cs@.len() - i,
    {
        push_char(&mut r, cs[i]);
        assert(cs@.take(i + 1) == cs@.take(i as int).push(cs@[i as int]));
        i = i + 1;
    }
    assert(cs@.take(cs@.len() as int) == cs@);
    r
}

} // verus!

verus! {

/// The Unicode `White_Space` property, which `char::is_whitespace` tests.
pub open spec fn white_space(c: char) -> bool {
    let u = c as u32;
    (0x9 <= u && u <= 0xd) || u == 0x20 || u == 0x85 || u == 0xa0 || u == 0x1680 || (0x2000 <= u
        && u <= 0x200a) || u == 0x2028 || u == 0x2029 || u == 0x202f || u == 0x205f || u == 0x3000
}

/// Whether `c` has the Unicode `White_Space` property (`char::is_whitespace`).
pub(crate) fn is_whitespace(c: char) -> (r: bool)
    ensures
        r == white_space(c),
{
    let u = c as u32;
    (0x9 <= u && u <= 0xd) || u == 0x20 || u == 0x85 || u == 0xa0 || u == 0x1680 || (0x2000 <= u
        && u <= 0x200a) || u == 0x2028 || u == 0x2029 || u == 0x202f || u == 0x205f || u == 0x3000
}

/// Whether every character of `s` is white space (what `s.trim().is_empty()` tests).
pub open spec fn blank(s: Seq<char>) -> bool {
    forall|i: int| 0 <= i < s.len() ==> white_space(#[trigger] s[i])
}

/// `s` without its trailing white space (`str::trim_end`).
pub open spec fn trim_end(s: Seq<char>) -> Seq<char>
    decreases s.len(),
{
    if s.len() > 0 && white_space(s.last()) {
        trim_end(s.drop_last())
    } else {
        s
    }
}

/// Whether `s` is empty or white space only.
pub fn is_blank(s: &str) -> (r: bool)
    ensures
        r == blank(s@),
{
    let mut all = true;
    for c in it: s.chars()
        invariant
            it.seq() == s@,
            all == (forall|i: int| 0 <= i < it.index() ==> white_space(#[trigger] s@[i])),
    {
        if !is_whitespace(c) {
            all = false;
        }
    }
    all
}

/// Index of the first `'\n'` in `s` at or after `from`, or `s.len()` when there is none.
pub open spec fn next_newline(s: Seq<char>, from: int) -> int
    decreases s.len() - from,
{
    if from < 0 || from >= s.len() {
        s.len() as int
    } else if s[from] == '\n' {
        from
    } else {
        next_newline(s, from + 1)
    }
}

pub proof fn lemma_next_newline_bounds(s: Seq<char>, from: int)
    requires
        0 <= from,
    ensures
        from <= next_newline(s, from) || next_newline(s, from) == s.len(),
        next_newline(s, from) <= s.len(),
        next_newline(s, from) < s.len() ==> s[next_newline(s, from)] == '\n',
        forall|k: int| from <= k < next_newline(s, from) ==> s[k] != '\n',
    decreases s.len() - from,
{
    if from < s.len() && s[from] != '\n' {
        lemma_next_newline_bounds(s, from + 1);
    }
}

pub proof fn lemma_next_newline_skip(s: Seq<char>, from: int, to: int)
    requires
        0 <= from <= to <= s.len(),
        forall|k: int| from <= k < to ==> s[k] != '\n',
    ensures
        next_newline(s, from) == next_newline(s, to),
    decreases to - from,
{
    if from < to {
        lemma_next_newline_skip(s, from + 1, to);
    }
}

/// End of the line holding `offset`: the index of the `'\n'` that ends it, or the text's
/// length on the last line. An offset just past a newline belongs to the line before it.
pub open spec fn line_end_spec(text: Seq<char>, offset: int) -> int {
    let o = if offset < text.len() { offset } else { text.len() as int };
    let o = if o > 0 && text[o - 1] == '\n' { o - 1 } else { o };
    next_newline(text, o)
}

/// See [`line_end_spec`].
pub fn line_end(text: &[char], offset: usize) -> (r: usize)
    ensures
        r == line_end_spec(text@, offset as int),
        r <= text@.len(),
        r < text@.len() ==> text@[r as int] == '\n',
{
    let mut o = if offset < text.len() { offset } else { text.len() };
    if o > 0 && text[o - 1] == '\n' {
        o = o - 1;
    }
    let start = o;
    while o < text.len() && text[o] != '\n'
        invariant
            start <= o <= text@.len(),
            forall|k: int| start <= k < o ==> text@[k] != '\n',
        decreases text@.len() - o,
    {
        o = o + 1;
    }
    proof {
        lemma_next_newline_skip(text@, start as int, o as int);
        lemma_next_newline_bounds(text@, o as int);
    }
    o
}

/// Number of leading spaces of `line`, at most `indent`.
pub open spec fn leading_spaces(line: Seq<char>, indent: nat) -> nat
    decreases line.len(),
{
    if indent == 0 || line.len() == 0 || line[0] != ' ' {
        0
    } else {
        1 + leading_spaces(line.drop_first(), (indent - 1) as nat)
    }
}

/// `line` with up to `indent` leading spaces removed.
pub open spec fn strip_indent(line: Seq<char>, indent: nat) -> Seq<char> {
    line.skip(leading_spaces(line, indent) as int)
}

/// `n` spaces.
pub open spec fn spaces(n: nat) -> Seq<char> {
    Seq::new(n, |_i: int| ' ')
}

/// Start of `text[start..end]` after removing up to `indent` leading spaces.
pub fn strip_indent_at(text: &[char], start: usize, end: usize, indent: usize) -> (r: usize)
    requires
        start <= end <= text@.len(),
    ensures
        start <= r <= end,
        text@.subrange(r as int, end as int) == strip_indent(
            text@.subrange(start as int, end as int),
            indent as nat,
        ),
{
    let mut i = start;
    while i < end && i - start < indent && text[i] == ' '
        invariant
            start <= i <= end <= text@.len(),
            i - start <= indent,
            leading_spaces(text@.subrange(start as int, end as int), indent as nat) == (i - start)
                + leading_spaces(
                text@.subrange(i as int, end as int),
                (indent - (i - start)) as nat,
            ),
        decreases end - i,
    {
        assert(text@.subrange(i as int, end as int).drop_first() =~= text@.subrange(
            i + 1,
            end as int,
        ));
        i = i + 1;
    }
    assert(leading_spaces(text@.subrange(i as int, end as int), (indent - (i - start)) as nat)
        == 0);
    assert(text@.subrange(start as int, end as int).skip(i - start) =~= text@.subrange(
        i as int,
        end as int,
    ));
    i
}

} // verus!

verus! {

/// `s` without its leading white space (`str::trim_start`).
pub open spec fn trim_start(s: Seq<char>) -> Seq<char>
    decreases s.len(),
{
    if s.len() > 0 && white_space(s[0]) {
        trim_start(s.drop_first())
    } else {
        s
    }
}

/// `s` without leading and trailing white space (`str::trim`).
pub open spec fn trim(s: Seq<char>) -> Seq<char> {
    trim_start(trim_end(s))
}

/// `s.trim()`, as a new string.
pub fn trimmed(s: &str) -> (r: String)
    ensures
        r@ == trim(s@),
{
    let cs = chars_of(s);
    let mut e = cs.len();
    assert(cs@.take(e as int) =~= s@);
    while e > 0 && is_whitespace(cs[e - 1])
        invariant
            e <= cs@.len(),
            cs@ == s@,
            trim_end(cs@.take(e as int)) == trim_end(s@),
        decreases e,
    {
        assert(cs@.take(e as int).drop_last() =~= cs@.take(e - 1));
        e = e - 1;
    }
    assert(trim_end(cs@.take(e as int)) == cs@.take(e as int));
    let mut b: usize = 0;
    while b < e && is_whitespace(cs[b])
        invariant
            b <= e <= cs@.len(),
            trim_start(cs@.subrange(b as int, e as int)) == trim(s@),
        decreases e - b,
    {
        assert(cs@.subrange(b as int, e as int).drop_first() =~= cs@.subrange(b + 1, e as int));
        b = b + 1;
    }
    assert(cs@.subrange(0, e as int) =~= cs@.take(e as int));
    string_of(&cs.as_slice()[b..e])
}

/// Whether `a` and `b` are the same text.
pub fn same_text(a: &str, b: &str) -> (r: bool)
    ensures
        r == (a@ == b@),
{
    let x = chars_of(a);
    let y = chars_of(b);
    if x.len() != y.len() {
        return false;
    }
    let mut i: usize = 0;
    while i < x.len()
        invariant
            x@ == a@,
            y@ == b@,
            x@.len() == y@.len(),
            i <= x@.len(),
            forall|k: int| 0 <= k < i ==> x@[k] == y@[k],
        decreases x@.len() - i,
    {
        if x[i] != y[i] {
            return false;
        }
        i = i + 1;
    }
    assert(x@ =~= y@);
    true
}

/// The decimal digit for `d < 10`.
pub open spec fn digit(d: nat) -> char {
    (48 + d) as char
}

/// The decimal digits of `n`, most significant first, without leading zeros.
pub open spec fn digits(n: nat) -> Seq<char>
    decreases n,
{
    if n < 10 {
        seq![digit(n)]
    } else {
        digits(n / 10).push(digit(n % 10))
    }
}

/// `i` written in decimal, with a leading `-` when negative (what `Display` writes).
pub open spec fn decimal(i: int) -> Seq<char> {
    if i < 0 {
        seq!['-'] + digits((-i) as nat)
    } else {
        digits(i as nat)
    }
}

fn push_digits(s: &mut String, n: u64)
    ensures
        final(s)@ == old(s)@ + digits(n as nat),
    decreases n,
{
    if n >= 10 {
        push_digits(s, n / 10);
    }
    let d = (n % 10) as u8;
    push_char(s, (48u8 + d) as char);
    assert(final(s)@ =~= old(s)@ + digits(n as nat));
}

/// `i` in decimal.
pub fn decimal_string(i: i64) -> (r: String)
    ensures
        r@ == decimal(i as int),
{
    let mut s = String::new();
    if i < 0 {
        push_char(&mut s, '-');
        let m: u64 = if i == i64::MIN {
            9223372036854775808u64
        } else {
            (-i) as u64
        };
        push_digits(&mut s, m);
        assert(s@ =~= decimal(i as int));
    } else {
        push_digits(&mut s, i as u64);
        assert(s@ =~= decimal(i as int));
    }
    s
}

} // verus!

verus! {

/// Index of the first white space character of `s` at or after `from`, or `s.len()`.
pub open spec fn next_white_space(s: Seq<char>, from: int) -> int
    decreases s.len() - from,
{
    if from < 0 || from >= s.len() {
        s.len() as int
    } else if white_space(s[from]) {
        from
    } else {
        next_white_space(s, from + 1)
    }
}

pub proof fn lemma_next_white_space(s: Seq<char>, from: int)
    requires
        0 <= from <= s.len(),
    ensures
        from <= next_white_space(s, from) <= s.len(),
        next_white_space(s, from) < s.len() ==> white_space(s[next_white_space(s, from)]),
        forall|k: int| from <= k < next_white_space(s, from) ==> !white_space(#[trigger] s[k]),
    decreases s.len() - from,
{
    if from < s.len() && !white_space(s[from]) {
        lemma_next_white_space(s, from + 1);
    }
}

pub proof fn lemma_trim_start_suffix(s: Seq<char>)
    ensures
        trim_start(s).len() <= s.len(),
        trim_start(s) == s.skip(s.len() - trim_start(s).len()),
        trim_start(s).len() > 0 ==> !white_space(trim_start(s)[0]),
        forall|k: int| 0 <= k < s.len() - trim_start(s).len() ==> white_space(#[trigger] s[k]),
    decreases s.len(),
{
    if s.len() > 0 && white_space(s[0]) {
        lemma_trim_start_suffix(s.drop_first());
        assert forall|k: int| 0 <= k < s.len() - trim_start(s).len() implies white_space(#[trigger] s[k]) by {
            if k > 0 {
                assert(s[k] == s.drop_first()[k - 1]);
            }
        }
        assert(s.drop_first().skip(s.drop_first().len() - trim_start(s).len()) =~= s.skip(
            s.len() - trim_start(s).len(),
        ));
    } else {
        assert(s.skip(0) =~= s);
    }
}

/// The words of `s`: its maximal runs of characters that are not white space
/// (what `str::split_whitespace` yields).
pub open spec fn words(s: Seq<char>) -> Seq<Seq<char>>
    decreases s.len(),
{
    let t = trim_start(s);
    if t.len() == 0 {
        Seq::empty()
    } else {
        let i = next_white_space(t, 0);
        proof {
            lemma_trim_start_suffix(s);
            lemma_next_white_space(t, 0);
            lemma_next_white_space(t, 1);
        }
        seq![t.take(i)] + words(t.skip(i))
    }
}

pub open spec fn strings_view(v: Seq<String>) -> Seq<Seq<char>> {
    v.map_values(|s: String| s@)
}

/// The words of `s`, see [`words`].
pub fn split_words(s: &str) -> (r: Vec<String>)
    ensures
        strings_view(r@) == words(s@),
{
    let cs = chars_of(s);
    let mut r: Vec<String> = Vec::new();
    let mut pos: usize = 0;
    assert(cs@.skip(0) =~= s@);
    while pos < cs.len()
        invariant
            cs@ == s@,
            pos <= cs@.len(),
            strings_view(r@) + words(cs@.skip(pos as int)) == words(s@),
        decreases cs@.len() - pos,
    {
        let ghost rest = cs@.skip(pos as int);
        let start0 = pos;
        while pos < cs.len() && is_whitespace(cs[pos])
            invariant
                start0 <= pos <= cs@.len(),
                trim_start(cs@.skip(pos as int)) == trim_start(rest),
                rest == cs@.skip(start0 as int),
            decreases cs@.len() - pos,
        {
            assert(cs@.skip(pos as int).drop_first() =~= cs@.skip(pos + 1));
            pos = pos + 1;
        }
        if pos == cs.len() {
            assert(cs@.skip(pos as int) =~= Seq::<char>::empty());
            assert(words(rest) =~= Seq::<Seq<char>>::empty());
            assert(words(cs@.skip(pos as int)) =~= Seq::<Seq<char>>::empty());
        } else {
            let ghost t = cs@.skip(pos as int);
            assert(trim_start(t) == t);
            assert(trim_start(rest) == t);
            let start = pos;
            while pos < cs.len() && !is_whitespace(cs[pos])
                invariant
                    start <= pos <= cs@.len(),
                    t == cs@.skip(start as int),
                    forall|k: int| start <= k < pos ==> !white_space(#[trigger] cs@[k]),
                decreases cs@.len() - pos,
            {
                pos = pos + 1;
            }
            proof {
                lemma_next_white_space(t, 0);
                assert forall|k: int| 0 <= k < pos - start implies !white_space(#[trigger] t[k]) by {
                    assert(t[k] == cs@[start + k]);
                }
                if pos < cs.len() {
                    assert(t[pos - start] == cs@[pos as int]);
                }
                assert(next_white_space(t, 0) == pos - start) by {
                    let n = next_white_space(t, 0);
                    if n < pos - start {
                        assert(!white_space(t[n]));
                    } else if n > pos - start {
                        assert(white_space(t[pos - start]));
                    }
                }
                assert(t.skip(pos - start) =~= cs@.skip(pos as int));
            }
            let w = string_of(&cs.as_slice()[start..pos]);
            assert(w@ =~= t.take(pos - start));
            let ghost before = r@;
            r.push(w);
            assert(strings_view(r@) =~= strings_view(before).push(w@));
            assert(words(rest) == seq![w@] + words(cs@.skip(pos as int)));
            assert(strings_view(r@) + words(cs@.skip(pos as int)) =~= strings_view(before) + words(rest));
        }
    }
    assert(cs@.skip(pos as int) =~= Seq::<char>::empty());
    assert(words(cs@.skip(pos as int)) =~= Seq::<Seq<char>>::empty());
    assert(strings_view(r@) + Seq::<Seq<char>>::empty() =~= strings_view(r@));
    r
}

} // verus!
