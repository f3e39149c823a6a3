//! Adds the keys a config file lacks, copying them from the defaults' YAML.
//!
//! The file text is spliced, not regenerated, so comments, key order, and
//! formatting written by the user survive. Missing keys are appended at the
//! end of the block mapping they belong to, at that mapping's indentation.
//! Flow mappings (`{a: 1}`) are left alone.

use vstd::prelude::*;

use crate::document::{Document, MapEntry, ParseError};

use crate::document::parse;
use crate::text::{chars_of, is_blank, is_whitespace, push_char, string_of, strip_indent_at};
use crate::yaml::YamlItem;

verus! {

/// `l` without one trailing carriage return.
pub open spec fn strip_cr(l: Seq<char>) -> Seq<char> {
    if l.len() > 0 && l.last() == '\r' {
        l.drop_last()
    } else {
        l
    }
}

/// One line of a missing entry as inserted: a newline, then the line moved from the
/// defaults' indentation `from` to the file's indentation `to` (nothing when it is empty).
pub open spec fn render_line(line: Seq<char>, from: nat, to: nat) -> Seq<char> {
    let l = crate::text::strip_indent(line, from);
    seq!['\n'] + if l.len() > 0 {
        crate::text::spaces(to) + l
    } else {
        Seq::<char>::empty()
    }
}

/// Every line of `s` (as `str::lines` splits it) rendered by [`render_line`].
pub open spec fn render_lines(s: Seq<char>, from: nat, to: nat) -> Seq<char>
    decreases s.len(),
{
    if s.len() == 0 {
        Seq::<char>::empty()
    } else {
        let i = crate::text::next_newline(s, 0);
        if i >= s.len() {
            render_line(s, from, to)
        } else {
            proof {
                crate::text::lemma_next_newline_bounds(s, 0);
            }
            render_line(strip_cr(s.take(i)), from, to) + render_lines(s.skip(i + 1), from, to)
        }
    }
}

/// Appends `src[from..to]` to `s`.
fn push_range(s: &mut String, src: &[char], from: usize, to: usize)
    requires
        from <= to <= src@.len(),
    ensures
        final(s)@ == old(s)@ + src@.subrange(from as int, to as int),
{
    let mut i = from;
    while i < to
        invariant
            from <= i <= to <= src@.len(),
            s@ == old(s)@ + src@.subrange(from as int, i as int),
        decreases to - i,
    {
        push_char(s, src[i]);
        assert(src@.subrange(from as int, i + 1) =~= src@.subrange(from as int, i as int).push(
            src@[i as int],
        ));
        i = i + 1;
    }
}

/// Appends `n` spaces to `s`.
fn push_spaces(s: &mut String, n: usize)
    ensures
        final(s)@ == old(s)@ + crate::text::spaces(n as nat),
{
    let mut i: usize = 0;
    while i < n
        invariant
            i <= n,
            s@ == old(s)@ + crate::text::spaces(i as nat),
        decreases n - i,
    {
        push_char(s, ' ');
        assert(crate::text::spaces((i + 1) as nat) =~= crate::text::spaces(i as nat).push(' '));
        i = i + 1;
    }
}

/// Index that ends `text[start..end]` once trailing white space is removed.
fn trim_end_at(text: &[char], start: usize, end: usize) -> (r: usize)
    requires
        start <= end <= text@.len(),
    ensures
        start <= r <= end,
        text@.subrange(start as int, r as int) == crate::text::trim_end(
            text@.subrange(start as int, end as int),
        ),
{
    let mut e = end;
    while e > start && is_whitespace(text[e - 1])
        invariant
            start <= e <= end <= text@.len(),
            crate::text::trim_end(text@.subrange(start as int, e as int)) == crate::text::trim_end(
                text@.subrange(start as int, end as int),
            ),
        decreases e - start,
    {
        assert(text@.subrange(start as int, e as int).drop_last() =~= text@.subrange(
            start as int,
            e - 1,
        ));
        e = e - 1;
    }
    e
}

/// Appends the lines of the entry at `text[start..end]`, trailing white space removed,
/// each rendered by [`render_line`].
#[verifier::spinoff_prover]
#[verifier::rlimit(40)]
fn push_entry_lines(
    lines: &mut String,
    text: &[char],
    start: usize,
    end: usize,
    from: usize,
    to: usize,
)
    requires
        start <= end <= text@.len(),
    ensures
        final(lines)@ == old(lines)@ + render_lines(
            crate::text::trim_end(text@.subrange(start as int, end as int)),
            from as nat,
            to as nat,
        ),
{
    let te = trim_end_at(text, start, end);
    let ghost whole = text@.subrange(start as int, te as int);
    let mut pos = start;
    while pos < te
        invariant
            start <= pos <= te <= text@.len(),
            whole == text@.subrange(start as int, te as int),
            old(lines)@ + render_lines(whole, from as nat, to as nat) == lines@ + render_lines(
                text@.subrange(pos as int, te as int),
                from as nat,
                to as nat,
            ),
        decreases te - pos,
    {
        let ghost sub = text@.subrange(pos as int, te as int);
        let mut j = pos;
        while j < te && text[j] != '\n'
            invariant
                pos <= j <= te <= text@.len(),
                forall|k: int| pos <= k < j ==> text@[k] != '\n',
            decreases te - j,
        {
            j = j + 1;
        }
        proof {
            assert forall|k: int| 0 <= k < j - pos implies sub[k] != '\n' by {
                assert(sub[k] == text@[pos + k]);
            }
            crate::text::lemma_next_newline_skip(sub, 0, (j - pos) as int);
            if j < te {
                assert(sub[j - pos] == '\n');
            }
            assert(crate::text::next_newline(sub, 0) == j - pos);
        }
        let mut le = j;
        if j < te && le > pos && text[le - 1] == '\r' {
            le = le - 1;
        }
        proof {
            if j < te {
                assert(strip_cr(sub.take(j - pos)) =~= text@.subrange(pos as int, le as int));
                assert(sub.skip(j - pos + 1) =~= text@.subrange(j + 1, te as int));
            } else {
                assert(sub =~= text@.subrange(pos as int, le as int));
            }
        }
        push_char(lines, '\n');
        let s = strip_indent_at(text, pos, le, from);
        if s < le {
            push_spaces(lines, to);
            push_range(lines, text, s, le);
        }
        proof {
            let line = text@.subrange(pos as int, le as int);
            let l = crate::text::strip_indent(line, from as nat);
            if s < le {
                assert(render_line(line, from as nat, to as nat) =~= seq!['\n']
                    + crate::text::spaces(to as nat) + l);
            } else {
                assert(l.len() == 0);
                assert(render_line(line, from as nat, to as nat) =~= seq!['\n']);
            }
        }
        pos = if j < te {
            j + 1
        } else {
            te
        };
        proof {
            if pos == te {
                assert(text@.subrange(pos as int, te as int) =~= Seq::<char>::empty());
            }
        }
    }
    assert(text@.subrange(pos as int, te as int) =~= Seq::<char>::empty());
}


/// Index of the first entry whose key is `key`, or `entries.len()` when there is none.
pub open spec fn find_key(entries: Seq<crate::document::EntryView>, key: Seq<char>, from: nat) -> nat
    decreases entries.len() - from,
{
    if from >= entries.len() {
        entries.len()
    } else if entries[from as int].key == key {
        from
    } else {
        find_key(entries, key, from + 1)
    }
}

/// The text inserted for a missing entry `e` of the defaults mapping `wm`, placed in
/// the file's mapping `pm`.
pub open spec fn entry_lines(wt: Seq<char>, e: crate::document::EntryView, wm: crate::document::MappingView, pm: crate::document::MappingView) -> Seq<
    char,
> {
    render_lines(
        crate::text::trim_end(wt.subrange(e.start as int, e.end as int)),
        wm.indent,
        pm.indent,
    )
}

/// Insertions for the file's mapping `pi` of `p`, given the defaults' mapping `wi` of `w`
/// (whose text is `wt`): those of nested mappings present on both sides, in entry order,
/// then one for `pi` itself holding the lines of every entry it lacks, if any.
/// Each insertion is `(offset in the file, text)`.
pub open spec fn missing_spec(
    p: crate::document::DocumentView,
    pi: nat,
    w: crate::document::DocumentView,
    wi: nat,
    wt: Seq<char>,
) -> Seq<(nat, Seq<char>)>
    decreases wi, w.mappings[wi as int].entries.len() + 1,
{
    let r = missing_entries(p, pi, w, wi, wt, w.mappings[wi as int].entries.len());
    if r.1.len() > 0 {
        r.0.push((p.mappings[pi as int].end, r.1))
    } else {
        r.0
    }
}

/// [`missing_spec`] over the first `k` entries of the defaults' mapping: the nested
/// insertions, and the lines gathered for the mapping itself.
pub open spec fn missing_entries(
    p: crate::document::DocumentView,
    pi: nat,
    w: crate::document::DocumentView,
    wi: nat,
    wt: Seq<char>,
    k: nat,
) -> (Seq<(nat, Seq<char>)>, Seq<char>)
    decreases wi, k,
{
    if k == 0 {
        (Seq::empty(), Seq::empty())
    } else {
        let r = missing_entries(p, pi, w, wi, wt, (k - 1) as nat);
        let pm = p.mappings[pi as int];
        let wm = w.mappings[wi as int];
        let e = wm.entries[k - 1];
        let j = find_key(pm.entries, e.key, 0);
        if j >= pm.entries.len() {
            (r.0, r.1 + entry_lines(wt, e, wm, pm))
        } else {
            match (pm.entries[j as int].mapping, e.mapping) {
                (Some(pc), Some(wc)) => if wc < wi {
                    (r.0 + missing_spec(p, pc, w, wc, wt), r.1)
                } else {
                    r
                },
                _ => r,
            }
        }
    }
}

/// Every entry of the defaults' document covers a range of its text.
pub open spec fn spans_ok(w: crate::document::DocumentView, len: nat) -> bool {
    forall|i: int, j: int|
        #![trigger w.mappings[i].entries[j]]
        0 <= i < w.mappings.len() && 0 <= j < w.mappings[i].entries.len() ==> {
            &&& w.mappings[i].entries[j].start <= w.mappings[i].entries[j].end
            &&& w.mappings[i].entries[j].end <= len
        }
}

pub open spec fn insertions_view(v: Seq<(usize, String)>) -> Seq<(nat, Seq<char>)> {
    v.map_values(|x: (usize, String)| (x.0 as nat, x.1@))
}

fn find_key_exec(entries: &Vec<MapEntry>, key: &String) -> (r: usize)
    ensures
        r as nat == find_key(crate::document::entries_view(entries@), key@, 0),
{
    let ghost ev = crate::document::entries_view(entries@);
    let mut j: usize = 0;
    while j < entries.len()
        invariant
            j <= entries@.len(),
            ev == crate::document::entries_view(entries@),
            find_key(ev, key@, 0) == find_key(ev, key@, j as nat),
        decreases entries@.len() - j,
    {
        if entries[j].key == *key {
            return j;
        }
        j = j + 1;
    }
    j
}

fn missing(
    present: &Document,
    pi: usize,
    wanted: &Document,
    wi: usize,
    wt: &[char],
    out: &mut Vec<(usize, String)>,
    Ghost(bound): Ghost<nat>,
)
    requires
        pi < present@.mappings.len(),
        crate::document::ends_within(present@.mappings, bound),
        offsets_within(insertions_view(old(out)@), bound),
        wi < wanted@.mappings.len(),
        crate::document::children_ordered(present@.mappings),
        crate::document::children_ordered(wanted@.mappings),
        spans_ok(wanted@, wt@.len()),
    ensures
        insertions_view(final(out)@) == insertions_view(old(out)@) + missing_spec(
            present@,
            pi as nat,
            wanted@,
            wi as nat,
            wt@,
        ),
        offsets_within(insertions_view(final(out)@), bound),
    decreases wi,
{
    let pm = &present.mappings[pi];
    let wm = &wanted.mappings[wi];
    let ghost p = present@;
    let ghost w = wanted@;
    assert(p.mappings[pi as int] == pm@);
    assert(w.mappings[wi as int] == wm@);
    let mut lines = String::new();
    let mut k: usize = 0;
    while k < wm.entries.len()
        invariant
            pi < present@.mappings.len(),
            wi < wanted@.mappings.len(),
            crate::document::children_ordered(present@.mappings),
            crate::document::children_ordered(wanted@.mappings),
            spans_ok(wanted@, wt@.len()),
            crate::document::ends_within(present@.mappings, bound),
            offsets_within(insertions_view(out@), bound),
            p == present@,
            w == wanted@,
            p.mappings[pi as int] == pm@,
            w.mappings[wi as int] == wm@,
            k <= wm.entries@.len(),
            insertions_view(out@) == insertions_view(old(out)@) + missing_entries(
                p,
                pi as nat,
                w,
                wi as nat,
                wt@,
                k as nat,
            ).0,
            lines@ == missing_entries(p, pi as nat, w, wi as nat, wt@, k as nat).1,
        decreases wm.entries@.len() - k,
    {
        let e = &wm.entries[k];
        assert(crate::document::entries_view(wm.entries@)[k as int] == e@);
        let j = find_key_exec(&pm.entries, &e.key);
        if j >= pm.entries.len() {
            assert(w.mappings[wi as int].entries[k as int] == e@);
            push_entry_lines(&mut lines, wt, e.start, e.end, wm.indent, pm.indent);
        } else {
            let pe = &pm.entries[j];
            assert(crate::document::entries_view(pm.entries@)[j as int] == pe@);
            match (pe.mapping, e.mapping) {
                (Some(pc), Some(wc)) => {
                    assert(p.mappings[pi as int].entries[j as int] == pe@);
                    assert(w.mappings[wi as int].entries[k as int] == e@);
                    let ghost before = insertions_view(out@);
                    missing(present, pc, wanted, wc, wt, out, Ghost(bound));
                    assert(insertions_view(out@) == before + missing_spec(
                        p,
                        pc as nat,
                        w,
                        wc as nat,
                        wt@,
                    ));
                },
                _ => {},
            }
        }
        k = k + 1;
    }
    if lines.as_str().is_empty() {
    } else {
        let ghost before = out@;
        assert(pm@.end <= bound);
        out.push((pm.end, lines));
        assert(insertions_view(out@) =~= insertions_view(before).push(
            (pm.end as nat, lines@),
        ));
    }
}


/// Every insertion's offset is at most `bound`.
pub open spec fn offsets_within(ins: Seq<(nat, Seq<char>)>, bound: nat) -> bool {
    forall|q: int| 0 <= q < ins.len() ==> (#[trigger] ins[q]).0 <= bound
}

/// `x` placed into `sorted` after every element whose offset is at most its own.
pub open spec fn insert_by_offset(sorted: Seq<(nat, Seq<char>)>, x: (nat, Seq<char>)) -> Seq<
    (nat, Seq<char>),
>
    decreases sorted.len(),
{
    if sorted.len() == 0 {
        seq![x]
    } else if sorted.last().0 <= x.0 {
        sorted.push(x)
    } else {
        insert_by_offset(sorted.drop_last(), x).push(sorted.last())
    }
}

/// `ins` stably sorted by offset: equal offsets keep their order.
pub open spec fn sort_by_offset(ins: Seq<(nat, Seq<char>)>) -> Seq<(nat, Seq<char>)>
    decreases ins.len(),
{
    if ins.len() == 0 {
        ins
    } else {
        insert_by_offset(sort_by_offset(ins.drop_last()), ins.last())
    }
}

/// `t` with `x.1` inserted at offset `x.0`.
pub open spec fn insert_at(t: Seq<char>, x: (nat, Seq<char>)) -> Seq<char> {
    t.take(x.0 as int) + x.1 + t.skip(x.0 as int)
}

/// `t` with every insertion applied, the last one first, so that earlier offsets stay
/// valid and, at equal offsets, an earlier insertion ends up before a later one.
pub open spec fn spliced(t: Seq<char>, ins: Seq<(nat, Seq<char>)>) -> Seq<char>
    decreases ins.len(),
{
    if ins.len() == 0 {
        t
    } else {
        spliced(insert_at(t, ins.last()), ins.drop_last())
    }
}

proof fn lemma_insert_by_offset(q: Seq<(nat, Seq<char>)>, x: (nat, Seq<char>), p: int)
    requires
        0 <= p <= q.len(),
        forall|k: int| p <= k < q.len() ==> (#[trigger] q[k]).0 > x.0,
        p == 0 || q[p - 1].0 <= x.0,
    ensures
        insert_by_offset(q, x) == q.insert(p, x),
    decreases q.len() - p,
{
    if q.len() == 0 {
        assert(q.insert(p, x) =~= seq![x]);
    } else if p == q.len() {
        assert(q.insert(p, x) =~= q.push(x));
    } else {
        assert(q[q.len() - 1].0 > x.0);
        lemma_insert_by_offset(q.drop_last(), x, p);
        assert(q.drop_last().insert(p, x).push(q.last()) =~= q.insert(p, x));
    }
}

proof fn lemma_insert_by_offset_len(q: Seq<(nat, Seq<char>)>, x: (nat, Seq<char>))
    ensures
        insert_by_offset(q, x).len() == q.len() + 1,
    decreases q.len(),
{
    if q.len() > 0 && q.last().0 > x.0 {
        lemma_insert_by_offset_len(q.drop_last(), x);
    }
}

proof fn lemma_sort_len(s: Seq<(nat, Seq<char>)>)
    ensures
        sort_by_offset(s).len() == s.len(),
    decreases s.len(),
{
    if s.len() > 0 {
        lemma_sort_len(s.drop_last());
        lemma_insert_by_offset_len(sort_by_offset(s.drop_last()), s.last());
    }
}

/// Sorts the insertions stably by offset (an insertion sort).
fn sort_insertions(ins: &mut Vec<(usize, String)>, Ghost(bound): Ghost<nat>)
    requires
        offsets_within(insertions_view(old(ins)@), bound),
    ensures
        insertions_view(final(ins)@) == sort_by_offset(insertions_view(old(ins)@)),
        offsets_within(insertions_view(final(ins)@), bound),
{
    let ghost orig = insertions_view(ins@);
    let mut i: usize = 0;
    assert(orig.take(0) =~= Seq::<(nat, Seq<char>)>::empty());
    assert(insertions_view(ins@) =~= sort_by_offset(orig.take(0)) + orig.skip(0));
    while i < ins.len()
        invariant
            i <= ins@.len() == orig.len(),
            insertions_view(ins@) == sort_by_offset(orig.take(i as int)) + orig.skip(i as int),
            offsets_within(insertions_view(ins@), bound),
        decreases ins@.len() - i,
    {
        let ghost prefix = sort_by_offset(orig.take(i as int));
        proof {
            lemma_sort_len(orig.take(i as int));
        }
        assert(insertions_view(ins@).subrange(0, i as int) =~= prefix);
        assert(insertions_view(ins@)[i as int] == orig[i as int]);
        let ghost n = ins@.len();
        let ghost whole = insertions_view(ins@);
        assert(whole[i as int].0 <= bound);
        let x = ins.remove(i);
        assert(insertions_view(ins@) =~= whole.remove(i as int));
        assert(whole.remove(i as int) =~= prefix + orig.skip(i + 1));
        let ghost xv = (x.0 as nat, x.1@);
        assert(xv == orig[i as int]);
        let mut p = i;
        while p > 0 && ins[p - 1].0 > x.0
            invariant
                p <= i < n,
                ins@.len() + 1 == n,
                xv.0 == x.0 as nat,
                i <= ins@.len(),
                insertions_view(ins@).subrange(0, i as int) == prefix,
                forall|k: int| p <= k < i ==> (#[trigger] prefix[k]).0 > xv.0,
            decreases p,
        {
            assert(prefix[p - 1] == insertions_view(ins@).subrange(0, i as int)[p - 1]);
            assert(insertions_view(ins@)[p - 1].0 == ins@[p - 1].0 as nat);
            p = p - 1;
        }
        proof {
            if p > 0 {
                assert(prefix[p - 1] == insertions_view(ins@).subrange(0, i as int)[p - 1]);
            }
            lemma_insert_by_offset(prefix, xv, p as int);
            assert(orig.take(i + 1).drop_last() =~= orig.take(i as int));
        }
        let ghost before = ins@;
        ins.insert(p, x);
        assert(insertions_view(ins@) =~= insertions_view(before).insert(p as int, xv));
        assert(sort_by_offset(orig.take(i + 1)) == insert_by_offset(prefix, xv));
        assert(prefix.insert(p as int, xv) + orig.skip(i + 1) =~= (prefix + orig.skip(i + 1)).insert(p as int, xv));
        assert forall|q: int| 0 <= q < insertions_view(ins@).len() implies (#[trigger] insertions_view(ins@)[q]).0 <= bound by {
            if q < p {
                assert(insertions_view(ins@)[q] == insertions_view(before)[q]);
            } else if q > p {
                assert(insertions_view(ins@)[q] == insertions_view(before)[q - 1]);
            }
        }
        assert(insertions_view(ins@) =~= sort_by_offset(orig.take(i + 1)) + orig.skip(i + 1));
        i = i + 1;
    }
    assert(orig.take(i as int) =~= orig);
    assert(insertions_view(ins@) =~= sort_by_offset(orig));
}

/// Appends `src[from..to]` to `r`.
fn extend_from(r: &mut Vec<char>, src: &[char], from: usize, to: usize)
    requires
        from <= to <= src@.len(),
    ensures
        final(r)@ == old(r)@ + src@.subrange(from as int, to as int),
{
    let mut i = from;
    while i < to
        invariant
            from <= i <= to <= src@.len(),
            r@ == old(r)@ + src@.subrange(from as int, i as int),
        decreases to - i,
    {
        r.push(src[i]);
        assert(src@.subrange(from as int, i + 1) =~= src@.subrange(from as int, i as int).push(
            src@[i as int],
        ));
        i = i + 1;
    }
}

fn insert_chars(t: &Vec<char>, o: usize, l: &String) -> (r: Vec<char>)
    requires
        o <= t@.len(),
    ensures
        r@ == insert_at(t@, (o as nat, l@)),
{
    let lc = chars_of(l.as_str());
    let mut r: Vec<char> = Vec::new();
    extend_from(&mut r, t.as_slice(), 0, o);
    extend_from(&mut r, lc.as_slice(), 0, lc.len());
    extend_from(&mut r, t.as_slice(), o, t.len());
    assert(r@ =~= insert_at(t@, (o as nat, l@)));
    r
}

/// Applies the insertions to `t`, the last one first.
fn splice(t: Vec<char>, ins: &Vec<(usize, String)>) -> (r: Vec<char>)
    requires
        offsets_within(insertions_view(ins@), t@.len()),
    ensures
        r@ == spliced(t@, insertions_view(ins@)),
{
    let ghost t0 = t@;
    let ghost iv = insertions_view(ins@);
    let mut cur = t;
    let mut k = ins.len();
    assert(iv.take(k as int) =~= iv);
    while k > 0
        invariant
            k <= ins@.len(),
            iv == insertions_view(ins@),
            offsets_within(iv, t0.len()),
            t0.len() <= cur@.len(),
            spliced(t0, iv) == spliced(cur@, iv.take(k as int)),
        decreases k,
    {
        let (o, l) = (ins[k - 1].0, &ins[k - 1].1);
        assert(iv[k - 1] == (o as nat, l@));
        assert(iv.take(k as int).drop_last() =~= iv.take(k - 1));
        assert(iv.take(k as int).last() == iv[k - 1]);
        cur = insert_chars(&cur, o, l);
        k = k - 1;
    }
    assert(iv.take(0) =~= Seq::<(nat, Seq<char>)>::empty());
    cur
}

/// Whether every entry of `w` covers a range of a text of `len` characters.
fn spans_within(w: &Document, len: usize) -> (r: bool)
    ensures
        r == spans_ok(w@, len as nat),
{
    let mut i: usize = 0;
    while i < w.mappings.len()
        invariant
            i <= w.mappings@.len(),
            forall|a: int, b: int|
                #![trigger w@.mappings[a].entries[b]]
                0 <= a < i && 0 <= b < w@.mappings[a].entries.len() ==> {
                    &&& w@.mappings[a].entries[b].start <= w@.mappings[a].entries[b].end
                    &&& w@.mappings[a].entries[b].end <= len
                },
        decreases w.mappings@.len() - i,
    {
        let m = &w.mappings[i];
        assert(w@.mappings[i as int] == m@);
        let mut j: usize = 0;
        while j < m.entries.len()
            invariant
                i < w.mappings@.len(),
                w@.mappings[i as int] == m@,
                j <= m.entries@.len(),
                forall|a: int, b: int|
                    #![trigger w@.mappings[a].entries[b]]
                    0 <= a < i && 0 <= b < w@.mappings[a].entries.len() ==> {
                        &&& w@.mappings[a].entries[b].start <= w@.mappings[a].entries[b].end
                        &&& w@.mappings[a].entries[b].end <= len
                    },
                forall|b: int|
                    #![trigger w@.mappings[i as int].entries[b]]
                    0 <= b < j ==> {
                        &&& w@.mappings[i as int].entries[b].start <= w@.mappings[i as int].entries[b].end
                        &&& w@.mappings[i as int].entries[b].end <= len
                    },
            decreases m.entries@.len() - j,
        {
            let e = &m.entries[j];
            assert(w@.mappings[i as int].entries[j as int] == e@);
            if e.start > e.end || e.end > len {
                return false;
            }
            j = j + 1;
        }
        i = i + 1;
    }
    true
}

/// Why a config text could not be extended.
#[derive(Clone, Debug, PartialEq, Eq)]
pub enum ExtendError {
    /// The defaults do not parse.
    Defaults(ParseError),
    /// The defaults' root is not a block mapping.
    DefaultsNotMapping,
    /// The file does not parse.
    Text(ParseError),
    /// The parser located an entry of the defaults outside their text.
    DefaultsSpans,
}

pub enum ExtendErrorView {
    Defaults(crate::document::ParseErrorView),
    DefaultsNotMapping,
    Text(crate::document::ParseErrorView),
    DefaultsSpans,
}

impl View for ExtendError {
    type V = ExtendErrorView;

    open spec fn view(&self) -> ExtendErrorView {
        match self {
            ExtendError::Defaults(e) => ExtendErrorView::Defaults(e@),
            ExtendError::DefaultsNotMapping => ExtendErrorView::DefaultsNotMapping,
            ExtendError::Text(e) => ExtendErrorView::Text(e@),
            ExtendError::DefaultsSpans => ExtendErrorView::DefaultsSpans,
        }
    }
}

/// The extended text, or `None` when `p` already has every key of `w`.
pub open spec fn extension(
    text: Seq<char>,
    defaults: Seq<char>,
    p: crate::document::DocumentView,
    w: crate::document::DocumentView,
) -> Option<Seq<char>> {
    let ins = missing_spec(p, p.root, w, w.root, defaults);
    if ins.len() == 0 {
        None
    } else {
        Some(spliced(text, sort_by_offset(ins)))
    }
}

pub open spec fn extend_view(r: Result<Option<String>, ExtendError>) -> Result<
    Option<Seq<char>>,
    ExtendErrorView,
> {
    match r {
        Ok(Some(s)) => Ok(Some(s@)),
        Ok(None) => Ok(None),
        Err(e) => Err(e@),
    }
}

/// Extends `text` (whose document is `present`) with what it lacks of `defaults`
/// (whose document is `wanted`).
pub fn extend_documents(
    text: &str,
    defaults: &str,
    present: &Document,
    wanted: &Document,
) -> (r: Result<Option<String>, ExtendError>)
    requires
        present@.wf(text@.len()),
        wanted@.wf(defaults@.len()),
    ensures
        extend_view(r) == if spans_ok(wanted@, defaults@.len()) {
            Ok(extension(text@, defaults@, present@, wanted@))
        } else {
            Err(ExtendErrorView::DefaultsSpans)
        },
{
    let wt = chars_of(defaults);
    if !spans_within(wanted, wt.len()) {
        return Err(ExtendError::DefaultsSpans);
    }
    let mut ins: Vec<(usize, String)> = Vec::new();
    assert(insertions_view(ins@) =~= Seq::<(nat, Seq<char>)>::empty());
    missing(present, present.root, wanted, wanted.root, wt.as_slice(), &mut ins, Ghost(text@.len()));
    assert(insertions_view(ins@) =~= missing_spec(present@, present@.root, wanted@, wanted@.root, defaults@));
    if ins.len() == 0 {
        return Ok(None);
    }
    sort_insertions(&mut ins, Ghost(text@.len()));
    let t = chars_of(text);
    let out = splice(t, &ins);
    Ok(Some(string_of(out.as_slice())))
}

/// What [`extend`] gives for `text` and `defaults`, whose event streams are `te` and `de`.
pub open spec fn extend_spec(
    text: Seq<char>,
    defaults: Seq<char>,
    te: Seq<Result<YamlItem, Seq<char>>>,
    de: Seq<Result<YamlItem, Seq<char>>>,
) -> Result<Option<Seq<char>>, ExtendErrorView> {
    match crate::document::document_of(defaults, de) {
        Err(e) => Err(ExtendErrorView::Defaults(e)),
        Ok(None) => Err(ExtendErrorView::DefaultsNotMapping),
        Ok(Some(w)) => match crate::document::document_of(text, te) {
            Err(e) => Err(ExtendErrorView::Text(e)),
            Ok(None) => Ok(
                if crate::text::blank(text) {
                    Some(defaults)
                } else {
                    None
                },
            ),
            Ok(Some(p)) => if spans_ok(w, defaults.len()) {
                Ok(extension(text, defaults, p, w))
            } else {
                Err(ExtendErrorView::DefaultsSpans)
            },
        },
    }
}

/// `out` is `text` with whole lines inserted: nothing of `text` is lost or moved, and
/// each insertion starts a new line at the end of a line of `text`.
pub open spec fn lines_inserted(text: Seq<char>, out: Seq<char>) -> bool {
    exists|ins: Seq<(nat, Seq<char>)>|
        #![trigger interleave(text, ins, 0)]
        {
            &&& sorted_by_offset(ins)
            &&& forall|q: int| 0 <= q < ins.len() ==> starts_line_at_line_end(#[trigger] ins[q], text)
            &&& out == interleave(text, ins, 0)
        }
}

/// The extended text, or `None` when `text` already has every key of `defaults`. An
/// empty (or blank) `text` becomes `defaults`; any other extended text is `text` with
/// whole lines inserted (see [`law_extension_keeps_text`]).
pub fn extend(text: &str, defaults: &str) -> (r: Result<Option<String>, ExtendError>)
    ensures
        extend_view(r) == extend_spec(
            text@,
            defaults@,
            crate::yaml::yaml_events(text@),
            crate::yaml::yaml_events(defaults@),
        ),
        r matches Ok(Some(out)) ==> (crate::text::blank(text@) && out@ == defaults@)
            || lines_inserted(text@, out@),
{
    let wanted = match parse(defaults) {
        Err(e) => return Err(ExtendError::Defaults(e)),
        Ok(None) => return Err(ExtendError::DefaultsNotMapping),
        Ok(Some(d)) => d,
    };
    let present = match parse(text) {
        Err(e) => return Err(ExtendError::Text(e)),
        Ok(None) => {
            return Ok(
                if is_blank(text) {
                    Some(defaults.to_owned())
                } else {
                    None
                },
            );
        },
        Ok(Some(d)) => d,
    };
    let r = extend_documents(text, defaults, &present, &wanted);
    proof {
        law_extension_keeps_text(text@, defaults@, present@, wanted@);
        match &r {
            Ok(Some(out)) => {
                let ins = sort_by_offset(
                    missing_spec(present@, present@.root, wanted@, wanted@.root, defaults@),
                );
                assert(out@ == interleave(text@, ins, 0));
                assert(lines_inserted(text@, out@));
            },
            _ => {},
        }
    }
    r
}

// ---------------------------------------------------------------------------
// What extending promises.

/// Whether the file's mapping `pi` of `p` holds every key of the defaults' mapping
/// `wi` of `w`, and, where both hold a mapping under a key, every key of the nested
/// one too.
pub open spec fn has_every_key(p: crate::document::DocumentView, pi: nat, w: crate::document::DocumentView, wi: nat) -> bool
    decreases wi, w.mappings[wi as int].entries.len() + 1,
{
    has_every_key_upto(p, pi, w, wi, w.mappings[wi as int].entries.len())
}

/// [`has_every_key`] over the first `k` entries of the defaults' mapping.
pub open spec fn has_every_key_upto(
    p: crate::document::DocumentView,
    pi: nat,
    w: crate::document::DocumentView,
    wi: nat,
    k: nat,
) -> bool
    decreases wi, k,
{
    if k == 0 {
        true
    } else {
        let pm = p.mappings[pi as int];
        let e = w.mappings[wi as int].entries[k - 1];
        let j = find_key(pm.entries, e.key, 0);
        &&& has_every_key_upto(p, pi, w, wi, (k - 1) as nat)
        &&& j < pm.entries.len()
        &&& match (pm.entries[j as int].mapping, e.mapping) {
            (Some(pc), Some(wc)) => wc < wi ==> has_every_key(p, pc, w, wc),
            _ => true,
        }
    }
}

/// A file that already has every key of the defaults gets no insertion.
pub proof fn law_complete_mapping_gets_nothing(
    p: crate::document::DocumentView,
    pi: nat,
    w: crate::document::DocumentView,
    wi: nat,
    wt: Seq<char>,
)
    requires
        has_every_key(p, pi, w, wi),
    ensures
        missing_spec(p, pi, w, wi, wt) == Seq::<(nat, Seq<char>)>::empty(),
    decreases wi, w.mappings[wi as int].entries.len() + 1,
{
    lemma_complete_entries(p, pi, w, wi, wt, w.mappings[wi as int].entries.len());
}

proof fn lemma_complete_entries(
    p: crate::document::DocumentView,
    pi: nat,
    w: crate::document::DocumentView,
    wi: nat,
    wt: Seq<char>,
    k: nat,
)
    requires
        has_every_key_upto(p, pi, w, wi, k),
    ensures
        missing_entries(p, pi, w, wi, wt, k).0 == Seq::<(nat, Seq<char>)>::empty(),
        missing_entries(p, pi, w, wi, wt, k).1 == Seq::<char>::empty(),
    decreases wi, k,
{
    if k > 0 {
        lemma_complete_entries(p, pi, w, wi, wt, (k - 1) as nat);
        let pm = p.mappings[pi as int];
        let e = w.mappings[wi as int].entries[k - 1];
        let j = find_key(pm.entries, e.key, 0);
        match (pm.entries[j as int].mapping, e.mapping) {
            (Some(pc), Some(wc)) => {
                if wc < wi {
                    law_complete_mapping_gets_nothing(p, pc, w, wc, wt);
                    assert(Seq::<(nat, Seq<char>)>::empty() + Seq::<(nat, Seq<char>)>::empty()
                        =~= Seq::<(nat, Seq<char>)>::empty());
                }
            },
            _ => {},
        }
    }
}

/// Extending a file that already has every key of the defaults changes nothing.
pub proof fn law_complete_file_is_untouched(
    text: Seq<char>,
    defaults: Seq<char>,
    p: crate::document::DocumentView,
    w: crate::document::DocumentView,
)
    requires
        has_every_key(p, p.root, w, w.root),
    ensures
        extension(text, defaults, p, w) is None,
{
    law_complete_mapping_gets_nothing(p, p.root, w, w.root, defaults);
}

/// An insertion that starts a new line at the end of a line of `text`.
pub open spec fn starts_line_at_line_end(x: (nat, Seq<char>), text: Seq<char>) -> bool {
    &&& x.1.len() > 0
    &&& x.1[0] == '\n'
    &&& x.0 <= text.len()
    &&& (x.0 == text.len() || text[x.0 as int] == '\n')
}

proof fn lemma_render_lines_first(s: Seq<char>, from: nat, to: nat)
    ensures
        s.len() > 0 ==> render_lines(s, from, to).len() > 0 && render_lines(s, from, to)[0]
            == '\n',
        s.len() == 0 ==> render_lines(s, from, to).len() == 0,
{
    if s.len() > 0 {
        let i = crate::text::next_newline(s, 0);
        if i >= s.len() {
            assert(render_line(s, from, to)[0] == '\n');
        } else {
            let r = render_line(strip_cr(s.take(i)), from, to);
            assert(r[0] == '\n');
            assert((r + render_lines(s.skip(i + 1), from, to))[0] == '\n');
        }
    }
}

/// Every insertion for a file's mapping starts a new line, and goes at the end of a
/// line: where that mapping's last line ends.
pub proof fn law_insertions_start_lines_at_line_ends(
    p: crate::document::DocumentView,
    pi: nat,
    w: crate::document::DocumentView,
    wi: nat,
    wt: Seq<char>,
    text: Seq<char>,
)
    requires
        pi < p.mappings.len(),
        crate::document::children_ordered(p.mappings),
        crate::document::nodes_wf(p.mappings, text.len()),
        crate::document::ends_at_line_ends(p.mappings, text),
    ensures
        forall|q: int|
            0 <= q < missing_spec(p, pi, w, wi, wt).len() ==> starts_line_at_line_end(
                #[trigger] missing_spec(p, pi, w, wi, wt)[q],
                text,
            ),
    decreases wi, w.mappings[wi as int].entries.len() + 1,
{
    let k = w.mappings[wi as int].entries.len();
    lemma_insertions_entries(p, pi, w, wi, wt, text, k);
    let r = missing_entries(p, pi, w, wi, wt, k);
    if r.1.len() > 0 {
        let x = (p.mappings[pi as int].end, r.1);
        assert(starts_line_at_line_end(x, text));
        assert forall|q: int| 0 <= q < r.0.push(x).len() implies starts_line_at_line_end(
            #[trigger] r.0.push(x)[q],
            text,
        ) by {
            if q < r.0.len() {
                assert(r.0.push(x)[q] == r.0[q]);
            }
        }
    }
}

proof fn lemma_insertions_entries(
    p: crate::document::DocumentView,
    pi: nat,
    w: crate::document::DocumentView,
    wi: nat,
    wt: Seq<char>,
    text: Seq<char>,
    k: nat,
)
    requires
        pi < p.mappings.len(),
        crate::document::children_ordered(p.mappings),
        crate::document::nodes_wf(p.mappings, text.len()),
        crate::document::ends_at_line_ends(p.mappings, text),
    ensures
        forall|q: int|
            0 <= q < missing_entries(p, pi, w, wi, wt, k).0.len() ==> starts_line_at_line_end(
                #[trigger] missing_entries(p, pi, w, wi, wt, k).0[q],
                text,
            ),
        missing_entries(p, pi, w, wi, wt, k).1.len() > 0 ==> missing_entries(
            p,
            pi,
            w,
            wi,
            wt,
            k,
        ).1[0] == '\n',
    decreases wi, k,
{
    if k > 0 {
        lemma_insertions_entries(p, pi, w, wi, wt, text, (k - 1) as nat);
        let r = missing_entries(p, pi, w, wi, wt, (k - 1) as nat);
        let pm = p.mappings[pi as int];
        let wm = w.mappings[wi as int];
        let e = wm.entries[k - 1];
        let j = find_key(pm.entries, e.key, 0);
        if j >= pm.entries.len() {
            let el = entry_lines(wt, e, wm, pm);
            lemma_render_lines_first(
                crate::text::trim_end(wt.subrange(e.start as int, e.end as int)),
                wm.indent,
                pm.indent,
            );
            if r.1.len() > 0 {
                assert((r.1 + el)[0] == r.1[0]);
            } else if el.len() > 0 {
                assert((r.1 + el)[0] == el[0]);
            }
        } else {
            match (pm.entries[j as int].mapping, e.mapping) {
                (Some(pc), Some(wc)) => {
                    if wc < wi {
                        assert(pm.entries[j as int] == p.mappings[pi as int].entries[j as int]);
                        assert(pc < pi);
                        law_insertions_start_lines_at_line_ends(p, pc, w, wc, wt, text);
                        let m = missing_spec(p, pc, w, wc, wt);
                        assert forall|q: int| 0 <= q < (r.0 + m).len() implies starts_line_at_line_end(
                            #[trigger] (r.0 + m)[q],
                            text,
                        ) by {
                            if q < r.0.len() {
                                assert((r.0 + m)[q] == r.0[q]);
                            } else {
                                assert((r.0 + m)[q] == m[q - r.0.len()]);
                            }
                        }
                    }
                },
                _ => {},
            }
        }
    }
}

/// Whether the insertions' offsets never decrease.
pub open spec fn sorted_by_offset(ins: Seq<(nat, Seq<char>)>) -> bool {
    forall|a: int, b: int| 0 <= a < b < ins.len() ==> (#[trigger] ins[a]).0 <= (#[trigger] ins[b]).0
}

proof fn lemma_insert_by_offset_sorted(q: Seq<(nat, Seq<char>)>, x: (nat, Seq<char>))
    requires
        sorted_by_offset(q),
    ensures
        sorted_by_offset(insert_by_offset(q, x)),
        insert_by_offset(q, x).len() == q.len() + 1,
        forall|y: (nat, Seq<char>)| #[trigger] insert_by_offset(q, x).contains(y) ==> y == x || q.contains(y),
    decreases q.len(),
{
    if q.len() == 0 {
        assert(insert_by_offset(q, x) =~= seq![x]);
        assert forall|y: (nat, Seq<char>)| #[trigger] insert_by_offset(q, x).contains(y) implies y == x || q.contains(y) by {
            let k = choose|k: int| 0 <= k < insert_by_offset(q, x).len() && insert_by_offset(q, x)[k] == y;
        }
    } else if q.last().0 <= x.0 {
        let r = q.push(x);
        assert forall|a: int, b: int| 0 <= a < b < r.len() implies (#[trigger] r[a]).0 <= (#[trigger] r[b]).0 by {
            if b == q.len() {
                if a < q.len() - 1 {
                    assert(q[a].0 <= q[q.len() - 1].0);
                }
            } else {
                assert(q[a].0 <= q[b].0);
            }
        }
        assert forall|y: (nat, Seq<char>)| #[trigger] r.contains(y) implies y == x || q.contains(y) by {
            let k = choose|k: int| 0 <= k < r.len() && r[k] == y;
            if k < q.len() {
                assert(q[k] == y);
            }
        }
    } else {
        let d = q.drop_last();
        assert(sorted_by_offset(d)) by {
            assert forall|a: int, b: int| 0 <= a < b < d.len() implies (#[trigger] d[a]).0 <= (#[trigger] d[b]).0 by {
                assert(q[a].0 <= q[b].0);
            }
        }
        lemma_insert_by_offset_sorted(d, x);
        let m = insert_by_offset(d, x);
        let r = m.push(q.last());
        assert forall|a: int, b: int| 0 <= a < b < r.len() implies (#[trigger] r[a]).0 <= (#[trigger] r[b]).0 by {
            if b == m.len() {
                let y = m[a];
                assert(m.contains(y));
                if y == x {
                } else {
                    let k = choose|k: int| 0 <= k < d.len() && d[k] == y;
                    assert(q[k].0 <= q[q.len() - 1].0);
                }
            } else {
                assert(m[a].0 <= m[b].0);
            }
        }
        assert forall|y: (nat, Seq<char>)| #[trigger] r.contains(y) implies y == x || q.contains(y) by {
            let k = choose|k: int| 0 <= k < r.len() && r[k] == y;
            if k < m.len() {
                assert(m.contains(y));
                if y != x {
                    let k2 = choose|k2: int| 0 <= k2 < d.len() && d[k2] == y;
                    assert(q[k2] == y);
                }
            } else {
                assert(q[q.len() - 1] == y);
            }
        }
    }
}

proof fn lemma_sort_by_offset_sorted(s: Seq<(nat, Seq<char>)>)
    ensures
        sorted_by_offset(sort_by_offset(s)),
        forall|y: (nat, Seq<char>)| #[trigger] sort_by_offset(s).contains(y) ==> s.contains(y),
    decreases s.len(),
{
    if s.len() > 0 {
        lemma_sort_by_offset_sorted(s.drop_last());
        lemma_insert_by_offset_sorted(sort_by_offset(s.drop_last()), s.last());
        assert forall|y: (nat, Seq<char>)| #[trigger] sort_by_offset(s).contains(y) implies s.contains(y) by {
            if y == s.last() {
                assert(s[s.len() - 1] == y);
            } else {
                assert(sort_by_offset(s.drop_last()).contains(y));
                assert(s.drop_last().contains(y));
                let k = choose|k: int| 0 <= k < s.drop_last().len() && s.drop_last()[k] == y;
                assert(s[k] == y);
            }
        }
    } else {
        assert forall|y: (nat, Seq<char>)| #[trigger] sort_by_offset(s).contains(y) implies s.contains(y) by {
        }
    }
}

/// `t` with the insertions (sorted by offset) placed between its pieces: the text up
/// to the first offset, the first insertion, the text up to the next offset, and so
/// on, then the rest of the text.
pub open spec fn interleave(t: Seq<char>, ins: Seq<(nat, Seq<char>)>, from: int) -> Seq<char>
    decreases ins.len(),
{
    if ins.len() == 0 {
        t.skip(from)
    } else {
        t.subrange(from, ins[0].0 as int) + ins[0].1 + interleave(t, ins.drop_first(), ins[0].0 as int)
    }
}

proof fn lemma_interleave_insert(
    t: Seq<char>,
    ins: Seq<(nat, Seq<char>)>,
    x: (nat, Seq<char>),
    from: int,
)
    requires
        sorted_by_offset(ins),
        forall|q: int| 0 <= q < ins.len() ==> (#[trigger] ins[q]).0 <= x.0,
        x.0 <= t.len(),
        0 <= from <= x.0,
        ins.len() > 0 ==> from <= ins[0].0,
    ensures
        interleave(insert_at(t, x), ins, from) == interleave(t, ins.push(x), from),
    decreases ins.len(),
{
    let tx = insert_at(t, x);
    if ins.len() == 0 {
        assert(tx.skip(from) =~= t.subrange(from, x.0 as int) + x.1 + t.skip(x.0 as int));
        assert(ins.push(x).drop_first() =~= Seq::<(nat, Seq<char>)>::empty());
        assert(interleave(t, ins.push(x), from) == t.subrange(from, x.0 as int) + x.1 + interleave(
            t,
            Seq::<(nat, Seq<char>)>::empty(),
            x.0 as int,
        ));
    } else {
        let o1 = ins[0].0 as int;
        let rest = ins.drop_first();
        assert(sorted_by_offset(rest)) by {
            assert forall|a: int, b: int| 0 <= a < b < rest.len() implies (#[trigger] rest[a]).0 <= (#[trigger] rest[b]).0 by {
                assert(ins[a + 1].0 <= ins[b + 1].0);
            }
        }
        if rest.len() > 0 {
            assert(ins[0].0 <= ins[1].0);
        }
        lemma_interleave_insert(t, rest, x, o1);
        assert(tx.subrange(from, o1) =~= t.subrange(from, o1));
        assert(ins.push(x).drop_first() =~= rest.push(x));
        assert(ins.push(x)[0] == ins[0]);
    }
}

/// Applying sorted insertions at offsets within `t` keeps all of `t`: the result is
/// [`interleave`].
pub proof fn law_splice_keeps_text(t: Seq<char>, ins: Seq<(nat, Seq<char>)>)
    requires
        sorted_by_offset(ins),
        offsets_within(ins, t.len()),
    ensures
        spliced(t, ins) == interleave(t, ins, 0),
    decreases ins.len(),
{
    if ins.len() == 0 {
        assert(t.skip(0) =~= t);
    } else {
        let x = ins.last();
        let d = ins.drop_last();
        let tx = insert_at(t, x);
        assert(sorted_by_offset(d)) by {
            assert forall|a: int, b: int| 0 <= a < b < d.len() implies (#[trigger] d[a]).0 <= (#[trigger] d[b]).0 by {
                assert(ins[a].0 <= ins[b].0);
            }
        }
        assert(x.0 <= t.len()) by {
            assert(ins[ins.len() - 1].0 <= t.len());
        }
        assert(offsets_within(d, tx.len())) by {
            assert forall|q: int| 0 <= q < d.len() implies (#[trigger] d[q]).0 <= tx.len() by {
                assert(ins[q].0 <= t.len());
            }
        }
        law_splice_keeps_text(tx, d);
        assert forall|q: int| 0 <= q < d.len() implies (#[trigger] d[q]).0 <= x.0 by {
            assert(ins[q].0 <= ins[ins.len() - 1].0);
        }
        lemma_interleave_insert(t, d, x, 0);
        assert(d.push(x) =~= ins);
    }
}

/// What extending does to a file: its text stays whole, with the missing lines
/// inserted between its pieces; each insertion starts a new line at the end of a line
/// of the file, and the insertions come in file order.
pub proof fn law_extension_keeps_text(
    text: Seq<char>,
    defaults: Seq<char>,
    p: crate::document::DocumentView,
    w: crate::document::DocumentView,
)
    requires
        p.wf(text.len()),
        crate::document::ends_at_line_ends(p.mappings, text),
    ensures
        extension(text, defaults, p, w) matches Some(out) ==> {
            let ins = sort_by_offset(missing_spec(p, p.root, w, w.root, defaults));
            &&& out == interleave(text, ins, 0)
            &&& sorted_by_offset(ins)
            &&& forall|q: int| 0 <= q < ins.len() ==> starts_line_at_line_end(#[trigger] ins[q], text)
        },
{
    let m = missing_spec(p, p.root, w, w.root, defaults);
    let ins = sort_by_offset(m);
    law_insertions_start_lines_at_line_ends(p, p.root, w, w.root, defaults, text);
    lemma_sort_by_offset_sorted(m);
    assert forall|q: int| 0 <= q < ins.len() implies starts_line_at_line_end(#[trigger] ins[q], text) by {
        assert(ins.contains(ins[q]));
        assert(m.contains(ins[q]));
        let k = choose|k: int| 0 <= k < m.len() && m[k] == ins[q];
        assert(starts_line_at_line_end(m[k], text));
    }
    assert(offsets_within(ins, text.len())) by {
        assert forall|q: int| 0 <= q < ins.len() implies (#[trigger] ins[q]).0 <= text.len() by {
            assert(starts_line_at_line_end(ins[q], text));
        }
    }
    if m.len() > 0 {
        law_splice_keeps_text(text, ins);
    }
}
} // verus!
