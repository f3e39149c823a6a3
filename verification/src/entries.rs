//! Installed desktop applications: ranking them against a query, ordering the
//! catalog, deciding which entries a menu offers, and the command line that
//! starts one. Finding the entries on disk and spawning the process are the
//! caller's.

use nucleo_matcher::pattern::{AtomKind, CaseMatching, Normalization, Pattern};
use nucleo_matcher::{Config, Matcher, Utf32Str};
use vstd::prelude::*;

use crate::sort::sort_stable;
use crate::text::{chars_of, is_blank, split_words};

verus! {

#[verifier::external_type_specification]
#[verifier::external_body]
pub struct ExMatcher(Matcher);

/// `nucleo_matcher::Matcher::new` with `Config::DEFAULT` and `prefer_prefix` set.
#[verifier::external_body]
fn new_matcher() -> Matcher {
    let mut config = Config::DEFAULT;
    config.prefer_prefix = true;
    Matcher::new(config)
}

/// The score that `nucleo_matcher` gives `text` for the fuzzy pattern `query` (case
/// ignored, smart normalization, prefix matches preferred), `None` when it does not
/// match.
pub uninterp spec fn fuzzy_score(query: Seq<char>, text: Seq<char>) -> Option<u32>;

/// `Pattern::new(query, CaseMatching::Ignore, Normalization::Smart, AtomKind::Fuzzy)`
/// scored against `text` by `Pattern::score`. The matcher only lends its scratch
/// space; its configuration is the one [`new_matcher`] sets.
#[verifier::external_body]
fn score_text(matcher: &mut Matcher, query: &str, text: &str) -> (r: Option<u32>)
    ensures
        r == fuzzy_score(query@, text@),
{
    let pattern = Pattern::new(query, CaseMatching::Ignore, Normalization::Smart, AtomKind::Fuzzy);
    pattern.score(Utf32Str::new(text, &mut Vec::new()), matcher)
}

/// `s` lowercased by `str::to_lowercase` (full Unicode case mapping).
pub uninterp spec fn lowercase(s: Seq<char>) -> Seq<char>;

/// `str::to_lowercase`.
#[verifier::external_body]
fn to_lowercase(s: &str) -> (r: String)
    ensures
        r@ == lowercase(s@),
{
    s.to_lowercase()
}

/// One launchable application.
#[derive(Clone, Debug, PartialEq, Eq)]
pub struct Entry {
    pub name: String,
    pub generic_name: Option<String>,
    pub keywords: Vec<String>,
    /// Exec with field codes stripped, argv form.
    pub command: Vec<String>,
    pub terminal: bool,
    /// `Path=` key, working directory for the process.
    pub cwd: Option<String>,
}

/// The texts other than the name that a query may match: the generic name, then
/// the keywords.
pub open spec fn other_texts(e: Entry) -> Seq<Seq<char>> {
    let g = match e.generic_name {
        Some(g) => seq![g@],
        None => Seq::empty(),
    };
    g + crate::text::strings_view(e.keywords@)
}

pub open spec fn max_opt(a: Option<u32>, b: Option<u32>) -> Option<u32> {
    match (a, b) {
        (Some(x), Some(y)) => Some(if x >= y { x } else { y }),
        (Some(x), None) => Some(x),
        (None, y) => y,
    }
}

/// The best score among `texts`.
pub open spec fn best_score(query: Seq<char>, texts: Seq<Seq<char>>) -> Option<u32>
    decreases texts.len(),
{
    if texts.len() == 0 {
        None
    } else {
        max_opt(best_score(query, texts.drop_last()), fuzzy_score(query, texts.last()))
    }
}

/// How well `e` matches `query`. A name match counts in full, a generic name or
/// keyword match at half, so a name match always outranks a keyword-only match of
/// equal quality.
pub open spec fn entry_score(query: Seq<char>, e: Entry) -> Option<u32> {
    match fuzzy_score(query, e.name@) {
        Some(s) => Some(s),
        None => match best_score(query, other_texts(e)) {
            Some(m) => Some(m / 2),
            None => None,
        },
    }
}

/// The best score among texts bounds each text's score, and is one of them.
proof fn lemma_best_score(query: Seq<char>, texts: Seq<Seq<char>>)
    ensures
        forall|k: int|
            0 <= k < texts.len() && (#[trigger] fuzzy_score(query, texts[k])) is Some ==> (
            best_score(query, texts) matches Some(m) && fuzzy_score(query, texts[k])->0 <= m),
        best_score(query, texts) matches Some(m) ==> exists|k: int|
            0 <= k < texts.len() && #[trigger] fuzzy_score(query, texts[k]) == Some(m),
    decreases texts.len(),
{
    if texts.len() > 0 {
        let d = texts.drop_last();
        lemma_best_score(query, d);
        assert forall|k: int|
            0 <= k < texts.len() && (#[trigger] fuzzy_score(query, texts[k])) is Some implies (
            best_score(query, texts) matches Some(m) && fuzzy_score(query, texts[k])->0 <= m) by {
            if k < texts.len() - 1 {
                assert(texts[k] == d[k]);
                assert(fuzzy_score(query, d[k]) is Some);
            }
        }
        if let Some(m) = best_score(query, texts) {
            if fuzzy_score(query, texts.last()) == Some(m) {
                assert(fuzzy_score(query, texts[texts.len() - 1]) == Some(m));
            } else {
                let k = choose|k: int| 0 <= k < d.len() && #[trigger] fuzzy_score(query, d[k]) == Some(m);
                assert(texts[k] == d[k]);
                assert(fuzzy_score(query, texts[k]) == Some(m));
            }
        }
    }
}

/// How `query` scores against `e`'s generic name, if it has one.
pub open spec fn generic_name_score(query: Seq<char>, e: Entry) -> Option<u32> {
    match e.generic_name {
        Some(g) => fuzzy_score(query, g@),
        None => None,
    }
}

/// A query that misses an entry's name but matches its generic name or one of its
/// keywords still matches the entry, at half the best of those matches: at least
/// half of each, and exactly half of one of them. Without any match it does not
/// match.
pub proof fn law_other_matches_count_at_half(query: Seq<char>, e: Entry)
    requires
        fuzzy_score(query, e.name@) is None,
    ensures
        generic_name_score(query, e) is Some ==> (entry_score(query, e) matches Some(t) && t
            >= generic_name_score(query, e)->0 / 2),
        forall|k: int|
            0 <= k < e.keywords@.len() && (#[trigger] fuzzy_score(query, e.keywords@[k]@)) is Some
                ==> (entry_score(query, e) matches Some(t) && t >= fuzzy_score(
                query,
                e.keywords@[k]@,
            )->0 / 2),
        entry_score(query, e) matches Some(t) ==> {
            ||| generic_name_score(query, e) is Some && t == generic_name_score(query, e)->0 / 2
            ||| exists|k: int|
                0 <= k < e.keywords@.len() && (#[trigger] fuzzy_score(query, e.keywords@[k]@))
                    is Some && t == fuzzy_score(query, e.keywords@[k]@)->0 / 2
        },
        generic_name_score(query, e) is None && (forall|k: int|
            0 <= k < e.keywords@.len() ==> (#[trigger] fuzzy_score(query, e.keywords@[k]@))
                is None) ==> entry_score(query, e) is None,
{
    let texts = other_texts(e);
    lemma_best_score(query, texts);
    let n: int = if e.generic_name is Some { 1 } else { 0 };
    assert forall|k: int| 0 <= k < e.keywords@.len() implies #[trigger] texts[n + k] == e.keywords@[k]@ by {}
    if let Some(g) = e.generic_name {
        assert(texts[0] == g@);
        if fuzzy_score(query, g@) is Some {
            assert(fuzzy_score(query, texts[0]) is Some);
        }
    }
    assert forall|k: int|
        0 <= k < e.keywords@.len() && (#[trigger] fuzzy_score(query, e.keywords@[k]@)) is Some
            implies (entry_score(query, e) matches Some(t) && t >= fuzzy_score(
            query,
            e.keywords@[k]@,
        )->0 / 2) by {
        assert(texts[n + k] == e.keywords@[k]@);
        assert(fuzzy_score(query, texts[n + k]) is Some);
    }
    if entry_score(query, e) matches Some(t) {
        let m = best_score(query, texts)->0;
        let k = choose|k: int| 0 <= k < texts.len() && #[trigger] fuzzy_score(query, texts[k]) == Some(m);
        if n == 1 && k == 0 {
        } else {
            assert(texts[k] == e.keywords@[k - n]@);
            assert(fuzzy_score(query, e.keywords@[k - n]@) == Some(m));
        }
    }
    if generic_name_score(query, e) is None && (forall|k: int|
        0 <= k < e.keywords@.len() ==> (#[trigger] fuzzy_score(query, e.keywords@[k]@)) is None) {
        if let Some(m) = best_score(query, texts) {
            let k = choose|k: int| 0 <= k < texts.len() && #[trigger] fuzzy_score(query, texts[k]) == Some(m);
            if n == 1 && k == 0 {
            } else {
                assert(texts[k] == e.keywords@[k - n]@);
            }
        }
    }
}

impl Entry {
    /// See [`entry_score`].
    fn score(&self, matcher: &mut Matcher, query: &str) -> (r: Option<u32>)
        ensures
            r == entry_score(query@, *self),
    {
        if let Some(s) = score_text(matcher, query, self.name.as_str()) {
            return Some(s);
        }
        let ghost texts = other_texts(*self);
        let mut best: Option<u32> = None;
        let mut n: usize = 0;
        match &self.generic_name {
            Some(g) => {
                best = score_text(matcher, query, g.as_str());
                n = 1;
                assert(texts.take(1).drop_last() =~= Seq::<Seq<char>>::empty());
                assert(texts[0] == g@);
                assert(texts.take(1).last() == g@);
                assert(best_score(query@, texts.take(1).drop_last()) == None::<u32>);
                assert(best == best_score(query@, texts.take(1)));
            },
            None => {
                assert(texts.take(0) =~= Seq::<Seq<char>>::empty());
            },
        }
        assert(best == best_score(query@, texts.take(n as int)));
        let mut k: usize = 0;
        while k < self.keywords.len()
            invariant
                n <= 1,
                texts == other_texts(*self),
                texts.len() == n + self.keywords@.len(),
                k <= self.keywords@.len(),
                forall|j: int| 0 <= j < self.keywords@.len() ==> texts[n + j] == #[trigger] self.keywords@[j]@,
                best == best_score(query@, texts.take(n + k)),
            decreases self.keywords@.len() - k,
        {
            let s = score_text(matcher, query, self.keywords[k].as_str());
            assert(texts.take(n + k + 1).drop_last() =~= texts.take(n + k));
            assert(texts.take(n + k + 1).last() == self.keywords@[k as int]@);
            best = match (best, s) {
                (Some(x), Some(y)) => Some(if x >= y { x } else { y }),
                (Some(x), None) => Some(x),
                (None, y) => y,
            };
            k = k + 1;
        }
        assert(texts.take(n + k) =~= texts);
        match best {
            Some(m) => Some(m / 2),
            None => None,
        }
    }
}

/// The installed applications plus what is needed to search and start them.
/// Entries are sorted by name (case-insensitive); `search` ties keep that order.
pub struct Catalog {
    entries: Vec<Entry>,
    /// Command that runs `Terminal=true` entries, from the config file.
    terminal: String,
    matcher: Matcher,
}

impl View for Catalog {
    /// The entries, in catalog order, and the terminal command.
    type V = (Seq<Entry>, Seq<char>);

    closed spec fn view(&self) -> (Seq<Entry>, Seq<char>) {
        (self.entries@, self.terminal@)
    }
}

/// Whether `a` comes before or together with `b` in `String`'s order (lexicographic
/// by character).
pub open spec fn text_le(a: Seq<char>, b: Seq<char>) -> bool
    decreases a.len(),
{
    if a.len() == 0 {
        true
    } else if b.len() == 0 {
        false
    } else if a[0] != b[0] {
        (a[0] as int) < (b[0] as int)
    } else {
        text_le(a.drop_first(), b.drop_first())
    }
}

/// `x` placed into `sorted` after every element whose key is at most its own.
pub open spec fn insert_by_name(sorted: Seq<(Seq<char>, Entry)>, x: (Seq<char>, Entry)) -> Seq<
    (Seq<char>, Entry),
>
    decreases sorted.len(),
{
    if sorted.len() == 0 {
        seq![x]
    } else if text_le(sorted.last().0, x.0) {
        sorted.push(x)
    } else {
        insert_by_name(sorted.drop_last(), x).push(sorted.last())
    }
}

/// `s` stably sorted by its text keys.
pub open spec fn sort_by_name(s: Seq<(Seq<char>, Entry)>) -> Seq<(Seq<char>, Entry)>
    decreases s.len(),
{
    if s.len() == 0 {
        s
    } else {
        insert_by_name(sort_by_name(s.drop_last()), s.last())
    }
}

/// The entries keyed by their lowercased names.
pub open spec fn name_keyed(entries: Seq<Entry>) -> Seq<(Seq<char>, Entry)> {
    entries.map_values(|e: Entry| (lowercase(e.name@), e))
}

/// The catalog order: entries stably sorted by lowercased name.
pub open spec fn catalog_order(entries: Seq<Entry>) -> Seq<Entry> {
    sort_by_name(name_keyed(entries)).map_values(|x: (Seq<char>, Entry)| x.1)
}

fn text_le_exec(a: &Vec<char>, b: &Vec<char>) -> (r: bool)
    ensures
        r == text_le(a@, b@),
{
    let mut i: usize = 0;
    assert(a@.skip(0) =~= a@);
    assert(b@.skip(0) =~= b@);
    while i < a.len() && i < b.len() && a[i] == b[i]
        invariant
            i <= a@.len(),
            i <= b@.len(),
            text_le(a@, b@) == text_le(a@.skip(i as int), b@.skip(i as int)),
        decreases a@.len() - i,
    {
        assert(a@.skip(i as int).drop_first() =~= a@.skip(i + 1));
        assert(b@.skip(i as int).drop_first() =~= b@.skip(i + 1));
        i = i + 1;
    }
    if i == a.len() {
        true
    } else if i == b.len() {
        false
    } else {
        assert(a@.skip(i as int)[0] == a@[i as int]);
        assert(b@.skip(i as int)[0] == b@[i as int]);
        a[i] < b[i]
    }
}

proof fn lemma_insert_by_name(q: Seq<(Seq<char>, Entry)>, x: (Seq<char>, Entry), p: int)
    requires
        0 <= p <= q.len(),
        forall|k: int| p <= k < q.len() ==> !text_le((#[trigger] q[k]).0, x.0),
        p == 0 || text_le(q[p - 1].0, x.0),
    ensures
        insert_by_name(q, x) == q.insert(p, x),
    decreases q.len() - p,
{
    if q.len() == 0 {
        assert(q.insert(p, x) =~= seq![x]);
    } else if p == q.len() {
        assert(q.insert(p, x) =~= q.push(x));
    } else {
        assert(!text_le(q[q.len() - 1].0, x.0));
        lemma_insert_by_name(q.drop_last(), x, p);
        assert(q.drop_last().insert(p, x).push(q.last()) =~= q.insert(p, x));
    }
}

proof fn lemma_sort_by_name_len(s: Seq<(Seq<char>, Entry)>)
    ensures
        sort_by_name(s).len() == s.len(),
    decreases s.len(),
{
    if s.len() > 0 {
        lemma_sort_by_name_len(s.drop_last());
        lemma_insert_by_name_len(sort_by_name(s.drop_last()), s.last());
    }
}

proof fn lemma_insert_by_name_len(q: Seq<(Seq<char>, Entry)>, x: (Seq<char>, Entry))
    ensures
        insert_by_name(q, x).len() == q.len() + 1,
    decreases q.len(),
{
    if q.len() > 0 && !text_le(q.last().0, x.0) {
        lemma_insert_by_name_len(q.drop_last(), x);
    }
}

pub open spec fn keyed_view(v: Seq<(Vec<char>, Entry)>) -> Seq<(Seq<char>, Entry)> {
    v.map_values(|x: (Vec<char>, Entry)| (x.0@, x.1))
}

/// Sorts `v` stably by its text keys (an insertion sort).
fn sort_by_name_exec(v: &mut Vec<(Vec<char>, Entry)>)
    ensures
        keyed_view(final(v)@) == sort_by_name(keyed_view(old(v)@)),
{
    let ghost orig = keyed_view(v@);
    let mut i: usize = 0;
    assert(orig.take(0) =~= Seq::<(Seq<char>, Entry)>::empty());
    assert(keyed_view(v@) =~= sort_by_name(orig.take(0)) + orig.skip(0));
    while i < v.len()
        invariant
            i <= v@.len() == orig.len(),
            keyed_view(v@) == sort_by_name(orig.take(i as int)) + orig.skip(i as int),
        decreases v@.len() - i,
    {
        let ghost prefix = sort_by_name(orig.take(i as int));
        proof {
            lemma_sort_by_name_len(orig.take(i as int));
        }
        assert(keyed_view(v@).subrange(0, i as int) =~= prefix);
        assert(keyed_view(v@)[i as int] == orig[i as int]);
        let ghost n = v@.len();
        let ghost whole = keyed_view(v@);
        let x = v.remove(i);
        let ghost xv = (x.0@, x.1);
        assert(keyed_view(v@) =~= whole.remove(i as int));
        assert(whole.remove(i as int) =~= prefix + orig.skip(i + 1));
        let mut p = i;
        while p > 0 && !text_le_exec(&v[p - 1].0, &x.0)
            invariant
                p <= i < n,
                v@.len() + 1 == n,
                xv == (x.0@, x.1),
                keyed_view(v@).subrange(0, i as int) == prefix,
                forall|k: int| p <= k < i ==> !text_le((#[trigger] prefix[k]).0, xv.0),
            decreases p,
        {
            assert(prefix[p - 1] == keyed_view(v@).subrange(0, i as int)[p - 1]);
            p = p - 1;
        }
        proof {
            if p > 0 {
                assert(prefix[p - 1] == keyed_view(v@).subrange(0, i as int)[p - 1]);
            }
            lemma_insert_by_name(prefix, xv, p as int);
            assert(orig.take(i + 1).drop_last() =~= orig.take(i as int));
            assert(orig.take(i + 1).last() == xv);
        }
        let ghost before = v@;
        v.insert(p, x);
        assert(keyed_view(v@) =~= keyed_view(before).insert(p as int, xv));
        assert(prefix.insert(p as int, xv) + orig.skip(i + 1) =~= (prefix + orig.skip(i + 1)).insert(
            p as int,
            xv,
        ));
        assert(keyed_view(v@) =~= sort_by_name(orig.take(i + 1)) + orig.skip(i + 1));
        i = i + 1;
    }
    assert(orig.take(i as int) =~= orig);
    assert(keyed_view(v@) =~= sort_by_name(orig));
}

/// `String`'s order is total.
proof fn lemma_text_le_total(a: Seq<char>, b: Seq<char>)
    ensures
        text_le(a, b) || text_le(b, a),
    decreases a.len(),
{
    if a.len() > 0 && b.len() > 0 {
        if a[0] == b[0] {
            lemma_text_le_total(a.drop_first(), b.drop_first());
        } else {
            assert((a[0] as int) != (b[0] as int));
        }
    }
}

/// `String`'s order is transitive.
proof fn lemma_text_le_transitive(a: Seq<char>, b: Seq<char>, c: Seq<char>)
    requires
        text_le(a, b),
        text_le(b, c),
    ensures
        text_le(a, c),
    decreases a.len(),
{
    if a.len() > 0 && b.len() > 0 && c.len() > 0 && a[0] == b[0] && b[0] == c[0] {
        lemma_text_le_transitive(a.drop_first(), b.drop_first(), c.drop_first());
    }
}

/// Where [`insert_by_name`] puts `x`: after the elements up to `p`, the last of which
/// comes before or with it, and before the rest, which all come after it.
proof fn lemma_insert_by_name_at(q: Seq<(Seq<char>, Entry)>, x: (Seq<char>, Entry)) -> (p: int)
    ensures
        0 <= p <= q.len(),
        insert_by_name(q, x) == q.insert(p, x),
        p > 0 ==> text_le(q[p - 1].0, x.0),
        forall|k: int| p <= k < q.len() ==> !text_le((#[trigger] q[k]).0, x.0),
    decreases q.len(),
{
    if q.len() == 0 {
        assert(q.insert(0, x) =~= seq![x]);
        0
    } else if text_le(q.last().0, x.0) {
        assert(q.insert(q.len() as int, x) =~= q.push(x));
        q.len() as int
    } else {
        let d = q.drop_last();
        let p = lemma_insert_by_name_at(d, x);
        assert(d.insert(p, x).push(q.last()) =~= q.insert(p, x));
        assert forall|k: int| p <= k < q.len() implies !text_le((#[trigger] q[k]).0, x.0) by {
            if k < q.len() - 1 {
                assert(q[k] == d[k]);
            }
        }
        if p > 0 {
            assert(q[p - 1] == d[p - 1]);
        }
        p
    }
}

/// Whether the keys of `s` come in `String`'s order.
pub open spec fn in_name_order(s: Seq<(Seq<char>, Entry)>) -> bool {
    forall|a: int, b: int| 0 <= a < b < s.len() ==> text_le((#[trigger] s[a]).0, (#[trigger] s[b]).0)
}

proof fn lemma_insert_by_name_in_order(q: Seq<(Seq<char>, Entry)>, x: (Seq<char>, Entry))
    requires
        in_name_order(q),
    ensures
        in_name_order(insert_by_name(q, x)),
{
    let p = lemma_insert_by_name_at(q, x);
    let r = q.insert(p, x);
    assert forall|a: int, b: int| 0 <= a < b < r.len() implies text_le((#[trigger] r[a]).0, (#[trigger] r[b]).0) by {
        if b < p {
            assert(r[a] == q[a] && r[b] == q[b]);
        } else if b == p {
            assert(r[a] == q[a]);
            if a < p - 1 {
                lemma_text_le_transitive(q[a].0, q[p - 1].0, x.0);
            }
        } else if a == p {
            assert(r[b] == q[b - 1]);
            assert(!text_le(q[b - 1].0, x.0));
            lemma_text_le_total(q[b - 1].0, x.0);
        } else if a < p {
            assert(r[a] == q[a] && r[b] == q[b - 1]);
            if a < b - 1 {
                assert(text_le(q[a].0, q[b - 1].0));
            }
        } else {
            assert(r[a] == q[a - 1] && r[b] == q[b - 1]);
        }
    }
}

proof fn lemma_sort_by_name_in_order(s: Seq<(Seq<char>, Entry)>)
    ensures
        in_name_order(sort_by_name(s)),
    decreases s.len(),
{
    if s.len() > 0 {
        lemma_sort_by_name_in_order(s.drop_last());
        lemma_insert_by_name_in_order(sort_by_name(s.drop_last()), s.last());
    }
}

/// Sorting by name keeps every item, and every entry, as often as it was there.
proof fn lemma_sort_by_name_keeps(s: Seq<(Seq<char>, Entry)>)
    ensures
        sort_by_name(s).to_multiset() == s.to_multiset(),
        sort_by_name(s).map_values(|x: (Seq<char>, Entry)| x.1).to_multiset() == s.map_values(
            |x: (Seq<char>, Entry)| x.1,
        ).to_multiset(),
    decreases s.len(),
{
    broadcast use vstd::seq_lib::group_to_multiset_ensures;

    if s.len() == 0 {
        assert(s.map_values(|x: (Seq<char>, Entry)| x.1) =~= Seq::<Entry>::empty());
    } else {
        let d = s.drop_last();
        let x = s.last();
        lemma_sort_by_name_keeps(d);
        let q = sort_by_name(d);
        let p = lemma_insert_by_name_at(q, x);
        assert(s =~= d.push(x));
        vstd::seq_lib::to_multiset_insert(q, p, x);
        let f = |y: (Seq<char>, Entry)| y.1;
        assert(q.insert(p, x).map_values(f) =~= q.map_values(f).insert(p, x.1));
        vstd::seq_lib::to_multiset_insert(q.map_values(f), p, x.1);
        assert(s.map_values(f) =~= d.map_values(f).push(x.1));
        vstd::seq_lib::to_multiset_build(d.map_values(f), x.1);
        vstd::seq_lib::to_multiset_build(d, x);
    }
}

/// The catalog lists every given entry, as often as it was given, ordered by
/// lowercased name.
pub proof fn law_catalog_is_in_name_order(entries: Seq<Entry>)
    ensures
        catalog_order(entries).to_multiset() == entries.to_multiset(),
        forall|i: int, j: int|
            0 <= i < j < catalog_order(entries).len() ==> text_le(
                lowercase((#[trigger] catalog_order(entries)[i]).name@),
                lowercase((#[trigger] catalog_order(entries)[j]).name@),
            ),
{
    broadcast use vstd::seq_lib::group_to_multiset_ensures;

    let nk = name_keyed(entries);
    let sorted = sort_by_name(nk);
    let f = |x: (Seq<char>, Entry)| x.1;
    lemma_sort_by_name_keeps(nk);
    lemma_sort_by_name_in_order(nk);
    lemma_sort_by_name_len(nk);
    assert(nk.map_values(f) =~= entries);
    assert forall|k: int| 0 <= k < sorted.len() implies #[trigger] sorted[k].0 == lowercase(sorted[k].1.name@) by {
        assert(sorted.to_multiset().count(sorted[k]) > 0);
        assert(nk.contains(sorted[k]));
        let m = choose|m: int| 0 <= m < nk.len() && nk[m] == sorted[k];
        assert(nk[m] == (lowercase(entries[m].name@), entries[m]));
    }
    let c = catalog_order(entries);
    assert forall|i: int, j: int| 0 <= i < j < c.len() implies text_le(
        lowercase((#[trigger] c[i]).name@),
        lowercase((#[trigger] c[j]).name@),
    ) by {
        assert(c[i] == sorted[i].1 && c[j] == sorted[j].1);
        assert(sorted[i].0 == lowercase(sorted[i].1.name@));
        assert(sorted[j].0 == lowercase(sorted[j].1.name@));
        assert(text_le(sorted[i].0, sorted[j].0));
    }
}

/// A key that ranks higher scores first.
pub open spec fn rank_key(score: u32) -> u64 {
    (u32::MAX - score) as u64
}

/// The entries that match `query`, keyed by rank, with their indices, in catalog order.
pub open spec fn ranked(query: Seq<char>, entries: Seq<Entry>, n: nat) -> Seq<(u64, usize)>
    decreases n,
{
    if n == 0 {
        Seq::empty()
    } else {
        let rest = ranked(query, entries, (n - 1) as nat);
        match entry_score(query, entries[n - 1]) {
            Some(s) => rest.push((rank_key(s), (n - 1) as usize)),
            None => rest,
        }
    }
}

/// Indices of the entries matching `query`, best first, ties in catalog order. A blank
/// query lists every entry.
pub open spec fn search_spec(query: Seq<char>, entries: Seq<Entry>) -> Seq<usize> {
    if crate::text::blank(query) {
        Seq::new(entries.len(), |i: int| i as usize)
    } else {
        crate::sort::sort_by_key(ranked(query, entries, entries.len())).map_values(
            |x: (u64, usize)| x.1,
        )
    }
}

impl Catalog {
    /// The catalog of `entries`, in [`catalog_order`]. `terminal` is the command that
    /// runs `Terminal=true` entries.
    pub fn new(entries: Vec<Entry>, terminal: String) -> (r: Catalog)
        ensures
            r@.0 == catalog_order(entries@),
            r@.1 == terminal@,
    {
        let ghost orig = entries@;
        let mut input = entries;
        let mut keyed: Vec<(Vec<char>, Entry)> = Vec::new();
        while input.len() > 0
            invariant
                input@.len() <= orig.len(),
                input@ == orig.skip(orig.len() - input@.len()),
                keyed_view(keyed@) == name_keyed(orig.take(orig.len() - input@.len())),
            decreases input@.len(),
        {
            let ghost done = orig.len() - input@.len();
            let e = input.remove(0);
            assert(e == orig[done]);
            let key = chars_of(to_lowercase(e.name.as_str()).as_str());
            let ghost kv = keyed_view(keyed@);
            keyed.push((key, e));
            assert(keyed_view(keyed@) =~= kv.push((lowercase(e.name@), e)));
            assert(orig.take(done + 1) =~= orig.take(done).push(e));
            assert(name_keyed(orig.take(done).push(e)) =~= name_keyed(orig.take(done)).push(
                (lowercase(e.name@), e),
            ));
            assert(keyed_view(keyed@) =~= name_keyed(orig.take(done + 1)));
            assert(input@ =~= orig.skip(orig.len() - input@.len()));
        }
        assert(orig.take(orig.len() as int) =~= orig);
        sort_by_name_exec(&mut keyed);
        let ghost sorted = keyed_view(keyed@);
        let mut ordered: Vec<Entry> = Vec::new();
        let mut rest = keyed;
        while rest.len() > 0
            invariant
                keyed_view(rest@) == sorted.skip(sorted.len() - rest@.len()),
                rest@.len() <= sorted.len(),
                ordered@ == sorted.take(sorted.len() - rest@.len()).map_values(
                    |x: (Seq<char>, Entry)| x.1,
                ),
            decreases rest@.len(),
        {
            let ghost k = keyed_view(rest@);
            let ghost m = sorted.len() - rest@.len();
            let (_, e) = rest.remove(0);
            assert(keyed_view(rest@) =~= k.drop_first());
            assert(k[0] == sorted[m]);
            assert(e == sorted[m].1);
            assert(sorted.take(m + 1) =~= sorted.take(m).push(sorted[m]));
            assert(keyed_view(rest@) =~= sorted.skip(sorted.len() - rest@.len()));
            ordered.push(e);
            assert(ordered@ =~= sorted.take(sorted.len() - rest@.len()).map_values(
                |x: (Seq<char>, Entry)| x.1,
            ));
        }
        assert(sorted.take(sorted.len() as int) =~= sorted);
        Catalog { entries: ordered, terminal, matcher: new_matcher() }
    }

    /// Number of entries.
    pub fn len(&self) -> (r: usize)
        ensures
            r == self@.0.len(),
    {
        self.entries.len()
    }

    /// Indices of entries matching `query`, best first. See [`search_spec`].
    pub fn search(&mut self, query: &str) -> (r: Vec<usize>)
        ensures
            final(self)@ == old(self)@,
            r@ == search_spec(query@, old(self)@.0),
    {
        let n = self.entries.len();
        if is_blank(query) {
            let mut all: Vec<usize> = Vec::new();
            let mut i: usize = 0;
            while i < n
                invariant
                    i <= n,
                    all@ == Seq::new(i as nat, |k: int| k as usize),
                decreases n - i,
            {
                all.push(i);
                assert(all@ =~= Seq::new((i + 1) as nat, |k: int| k as usize));
                i = i + 1;
            }
            return all;
        }
        let ghost es = self.entries@;
        let mut scored: Vec<(u64, usize)> = Vec::new();
        let mut i: usize = 0;
        while i < n
            invariant
                n == self.entries@.len(),
                es == self.entries@,
                self@ == old(self)@,
                i <= n,
                scored@ == ranked(query@, es, i as nat),
            decreases n - i,
        {
            match self.entries[i].score(&mut self.matcher, query) {
                Some(s) => {
                    let key = (u32::MAX - s) as u64;
                    scored.push((key, i));
                },
                None => {},
            }
            i = i + 1;
        }
        sort_stable(&mut scored);
        let ghost sorted = scored@;
        let mut out: Vec<usize> = Vec::new();
        let mut k: usize = 0;
        while k < scored.len()
            invariant
                scored@ == sorted,
                k <= sorted.len(),
                out@ == sorted.take(k as int).map_values(|x: (u64, usize)| x.1),
            decreases sorted.len() - k,
        {
            out.push(scored[k].1);
            assert(out@ =~= sorted.take(k + 1).map_values(|x: (u64, usize)| x.1));
            k = k + 1;
        }
        assert(sorted.take(k as int) =~= sorted);
        out
    }

    /// The entry at `index`.
    pub fn entry(&self, index: usize) -> (r: &Entry)
        requires
            index < self@.0.len(),
        ensures
            *r == self@.0[index as int],
    {
        &self.entries[index]
    }

    /// The command line that starts the entry at `index`: its `Exec` words, preceded by
    /// the words of the terminal command when it runs in a terminal. See [`argv_spec`].
    pub fn launch_argv(&self, index: usize) -> (r: Result<Vec<String>, LaunchError>)
        requires
            index < self@.0.len(),
        ensures
            match r {
                Ok(argv) => argv_spec(self@.0[index as int], self@.1) == Some(
                    crate::text::strings_view(argv@),
                ),
                Err(LaunchError::NoTerminal(name)) => argv_spec(self@.0[index as int], self@.1)
                    is None && name@ == self@.0[index as int].name@,
            },
    {
        let entry = &self.entries[index];
        let mut argv: Vec<String> = Vec::new();
        if entry.terminal {
            if is_blank(self.terminal.as_str()) {
                return Err(LaunchError::NoTerminal(entry.name.clone()));
            }
            argv = split_words(self.terminal.as_str());
        }
        let ghost head = crate::text::strings_view(argv@);
        let mut k: usize = 0;
        while k < entry.command.len()
            invariant
                k <= entry.command@.len(),
                crate::text::strings_view(argv@) == head + crate::text::strings_view(
                    entry.command@.take(k as int),
                ),
            decreases entry.command@.len() - k,
        {
            let ghost av = crate::text::strings_view(argv@);
            argv.push(entry.command[k].clone());
            assert(crate::text::strings_view(argv@) =~= av.push(entry.command@[k as int]@));
            assert(entry.command@.take(k + 1) =~= entry.command@.take(k as int).push(
                entry.command@[k as int],
            ));
            assert(crate::text::strings_view(argv@) =~= head + crate::text::strings_view(
                entry.command@.take(k + 1),
            ));
            k = k + 1;
        }
        assert(entry.command@.take(k as int) =~= entry.command@);
        Ok(argv)
    }
}

/// Why an entry cannot be started.
#[derive(Clone, Debug, PartialEq, Eq)]
pub enum LaunchError {
    /// The entry runs in a terminal and no terminal command is configured; the
    /// entry's name.
    NoTerminal(String),
}

/// The command line of `e`, given the terminal command, or `None` when `e` runs in a
/// terminal and the command is blank.
pub open spec fn argv_spec(e: Entry, terminal: Seq<char>) -> Option<Seq<Seq<char>>> {
    if e.terminal {
        if crate::text::blank(terminal) {
            None
        } else {
            Some(crate::text::words(terminal) + crate::text::strings_view(e.command@))
        }
    } else {
        Some(crate::text::strings_view(e.command@))
    }
}


proof fn lemma_ranked(query: Seq<char>, entries: Seq<Entry>, n: nat)
    requires
        n <= entries.len(),
        entries.len() <= usize::MAX,
    ensures
        forall|k: int| 0 <= k < ranked(query, entries, n).len() ==> {
            let x = #[trigger] ranked(query, entries, n)[k];
            &&& x.1 < n
            &&& entry_score(query, entries[x.1 as int]) matches Some(s) && x.0 == rank_key(s)
        },
        forall|a: int, b: int|
            0 <= a < b < ranked(query, entries, n).len() ==> (#[trigger] ranked(query, entries, n)[a]).1
                < (#[trigger] ranked(query, entries, n)[b]).1,
        forall|i: int|
            0 <= i < n && (#[trigger] entry_score(query, entries[i])) is Some ==> ranked(
                query,
                entries,
                n,
            ).contains((rank_key(entry_score(query, entries[i])->0), i as usize)),
    decreases n,
{
    if n > 0 {
        lemma_ranked(query, entries, (n - 1) as nat);
        let rest = ranked(query, entries, (n - 1) as nat);
        match entry_score(query, entries[n - 1]) {
            Some(s) => {
                let r = rest.push((rank_key(s), (n - 1) as usize));
                assert(r[rest.len() as int] == (rank_key(s), (n - 1) as usize));
                assert forall|i: int| 0 <= i < n && (#[trigger] entry_score(query, entries[i])) is Some implies r.contains((rank_key(entry_score(query, entries[i])->0), i as usize)) by {
                    if i < n - 1 {
                        let y = (rank_key(entry_score(query, entries[i])->0), i as usize);
                        assert(rest.contains(y));
                        let k = choose|k: int| 0 <= k < rest.len() && rest[k] == y;
                        assert(r[k] == y);
                    }
                }
            },
            None => {},
        }
    }
}

/// Search ranks the matching entries, and only those, best first; entries of equal
/// score keep their catalog order.
pub proof fn law_search_ranks_best_first(query: Seq<char>, entries: Seq<Entry>)
    requires
        !crate::text::blank(query),
        entries.len() <= usize::MAX,
    ensures
        forall|k: int| 0 <= k < search_spec(query, entries).len() ==> {
            let i = #[trigger] search_spec(query, entries)[k];
            i < entries.len() && entry_score(query, entries[i as int]) is Some
        },
        forall|i: int|
            0 <= i < entries.len() && (#[trigger] entry_score(query, entries[i])) is Some
                ==> search_spec(query, entries).contains(i as usize),
        forall|a: int, b: int|
            0 <= a < b < search_spec(query, entries).len() ==> {
                let sa = entry_score(query, entries[search_spec(query, entries)[a] as int])->0;
                let sb = entry_score(query, entries[search_spec(query, entries)[b] as int])->0;
                sa > sb || (sa == sb && #[trigger] search_spec(query, entries)[a]
                    < #[trigger] search_spec(query, entries)[b])
            },
{
    let rk = ranked(query, entries, entries.len());
    let sorted = crate::sort::sort_by_key(rk);
    let r = search_spec(query, entries);
    lemma_ranked(query, entries, entries.len());
    crate::sort::lemma_sort_by_key_stable(rk);
    crate::sort::lemma_sort_by_key_items(rk);
    crate::sort::lemma_sort_by_key_len(rk);
    assert(r == sorted.map_values(|x: (u64, usize)| x.1));
    assert forall|k: int| 0 <= k < r.len() implies {
        let i = #[trigger] r[k];
        i < entries.len() && entry_score(query, entries[i as int]) is Some
    } by {
        let y = sorted[k];
        assert(sorted.contains(y));
        let j = choose|j: int| 0 <= j < rk.len() && rk[j] == y;
        assert(r[k] == y.1);
    }
    assert forall|i: int| 0 <= i < entries.len() && (#[trigger] entry_score(query, entries[i])) is Some implies r.contains(i as usize) by {
        let y = (rank_key(entry_score(query, entries[i])->0), i as usize);
        assert(rk.contains(y));
        assert(sorted.contains(y));
        let k = choose|k: int| 0 <= k < sorted.len() && sorted[k] == y;
        assert(r[k] == i as usize);
    }
    assert forall|a: int, b: int| 0 <= a < b < r.len() implies {
        let sa = entry_score(query, entries[r[a] as int])->0;
        let sb = entry_score(query, entries[r[b] as int])->0;
        sa > sb || (sa == sb && #[trigger] r[a] < #[trigger] r[b])
    } by {
        let ya = sorted[a];
        let yb = sorted[b];
        assert(sorted.contains(ya));
        assert(sorted.contains(yb));
        let ja = choose|j: int| 0 <= j < rk.len() && rk[j] == ya;
        let jb = choose|j: int| 0 <= j < rk.len() && rk[j] == yb;
        assert(rk[ja].0 == rank_key(entry_score(query, entries[rk[ja].1 as int])->0));
        assert(rk[jb].0 == rank_key(entry_score(query, entries[rk[jb].1 as int])->0));
        assert(ya.0 < yb.0 || (ya.0 == yb.0 && ya.1 < yb.1));
        assert(r[a] == ya.1);
        assert(r[b] == yb.1);
    }
}

/// A name match outranks a match on the generic name or keywords only of the same
/// (non-zero) quality.
pub proof fn law_name_match_outranks_keyword_match(query: Seq<char>, by_name: Entry, by_keyword: Entry, s: u32)
    requires
        s > 0,
        fuzzy_score(query, by_name.name@) == Some(s),
        fuzzy_score(query, by_keyword.name@) is None,
        best_score(query, other_texts(by_keyword)) == Some(s),
    ensures
        entry_score(query, by_name)->0 > entry_score(query, by_keyword)->0,
{
}

/// What a menu reads of a desktop entry to decide whether to offer it: the values of
/// its `Type`, `NoDisplay`, `Hidden`, `OnlyShowIn`, `NotShowIn` and `TryExec` keys,
/// the two lists split at every `;` as they are written.
#[derive(Clone, Debug, PartialEq, Eq)]
pub struct DesktopInfo {
    pub kind: Option<String>,
    pub no_display: bool,
    pub hidden: bool,
    pub only_show_in: Option<Vec<String>>,
    pub not_show_in: Option<Vec<String>>,
    pub try_exec: Option<String>,
}

/// `c` with ASCII upper case letters lowered.
pub open spec fn ascii_lower(c: char) -> char {
    let u = c as u32;
    if 65 <= u && u <= 90 {
        (u + 32) as char
    } else {
        c
    }
}

/// `str::eq_ignore_ascii_case`.
pub open spec fn same_ignoring_ascii_case(a: Seq<char>, b: Seq<char>) -> bool {
    a.len() == b.len() && forall|i: int| 0 <= i < a.len() ==> ascii_lower(#[trigger] a[i]) == ascii_lower(b[i])
}

/// Whether `l` names one of `desktops`, ASCII case ignored.
pub open spec fn names_one_of(l: Seq<Seq<char>>, desktops: Seq<Seq<char>>) -> bool {
    exists|i: int, j: int|
        0 <= i < l.len() && 0 <= j < desktops.len() && #[trigger] same_ignoring_ascii_case(
            desktops[j],
            l[i],
        )
}

/// Whether `list` names one of `desktops`; no list names none.
pub open spec fn listed(list: Option<Seq<Seq<char>>>, desktops: Seq<Seq<char>>) -> bool {
    match list {
        Some(l) => names_one_of(l, desktops),
        None => false,
    }
}

pub open spec fn opt_strings(o: Option<Vec<String>>) -> Option<Seq<Seq<char>>> {
    match o {
        Some(v) => Some(crate::text::strings_view(v@)),
        None => None,
    }
}

/// Whether a menu on `desktops` shows the entry, `TryExec` aside: an application,
/// neither `NoDisplay` nor `Hidden`, shown on one of the desktops if it names the
/// desktops it is shown on, and not hidden on any of them.
pub open spec fn shown_on(e: DesktopInfo, desktops: Seq<Seq<char>>) -> bool {
    &&& match e.kind {
        Some(k) => k@ == seq!['A', 'p', 'p', 'l', 'i', 'c', 'a', 't', 'i', 'o', 'n'],
        None => false,
    }
    &&& !e.no_display
    &&& !e.hidden
    &&& (e.only_show_in is None || listed(opt_strings(e.only_show_in), desktops))
    &&& !listed(opt_strings(e.not_show_in), desktops)
}

/// Whether a menu offers an entry.
#[derive(Clone, Debug, PartialEq, Eq)]
pub enum Offer {
    Hidden,
    Shown,
    /// Shown if the program that `TryExec` names is installed.
    IfInstalled(String),
}

/// See [`same_ignoring_ascii_case`].
fn eq_ignore_ascii_case(a: &str, b: &str) -> (r: bool)
    ensures
        r == same_ignoring_ascii_case(a@, b@),
{
    let x = chars_of(a);
    let y = chars_of(b);
    if x.len() != y.len() {
        return false;
    }
    let mut i: usize = 0;
    while i < x.len()
        invariant
            x@ == a@,
            y@ == b@,
            x@.len() == y@.len(),
            i <= x@.len(),
            forall|k: int| 0 <= k < i ==> ascii_lower(#[trigger] x@[k]) == ascii_lower(y@[k]),
        decreases x@.len() - i,
    {
        let p = x[i] as u32;
        let q = y[i] as u32;
        let lp = if 65 <= p && p <= 90 { p + 32 } else { p };
        let lq = if 65 <= q && q <= 90 { q + 32 } else { q };
        assert(lp == ascii_lower(x@[i as int]) as u32);
        assert(lq == ascii_lower(y@[i as int]) as u32);
        if lp != lq {
            return false;
        }
        i = i + 1;
    }
    true
}

/// See [`listed`].
fn listed_in(list: &Option<Vec<String>>, desktops: &Vec<String>) -> (r: bool)
    ensures
        r == listed(opt_strings(*list), crate::text::strings_view(desktops@)),
{
    match list {
        None => false,
        Some(l) => {
            let ghost ls = crate::text::strings_view(l@);
            let ghost ds = crate::text::strings_view(desktops@);
            assert(opt_strings(*list) == Some(ls));
            let mut i: usize = 0;
            while i < l.len()
                invariant
                    i <= l@.len(),
                    ls == crate::text::strings_view(l@),
                    ds == crate::text::strings_view(desktops@),
                    opt_strings(*list) == Some(ls),
                    forall|a: int, b: int|
                        0 <= a < i && 0 <= b < ds.len() ==> !#[trigger] same_ignoring_ascii_case(
                            ds[b],
                            ls[a],
                        ),
                decreases l@.len() - i,
            {
                let mut j: usize = 0;
                while j < desktops.len()
                    invariant
                        i < l@.len(),
                        j <= desktops@.len(),
                        ls == crate::text::strings_view(l@),
                        ds == crate::text::strings_view(desktops@),
                        opt_strings(*list) == Some(ls),
                        forall|a: int, b: int|
                            0 <= a < i && 0 <= b < ds.len() ==> !#[trigger] same_ignoring_ascii_case(
                                ds[b],
                                ls[a],
                            ),
                        forall|b: int| 0 <= b < j ==> !#[trigger] same_ignoring_ascii_case(ds[b], ls[i as int]),
                    decreases desktops@.len() - j,
                {
                    if eq_ignore_ascii_case(desktops[j].as_str(), l[i].as_str()) {
                        assert(same_ignoring_ascii_case(ds[j as int], ls[i as int]));
                        assert(0 <= i < ls.len() && 0 <= j < ds.len());
                        assert(names_one_of(ls, ds));
                        return true;
                    }
                    j = j + 1;
                }
                i = i + 1;
            }
            false
        },
    }
}

/// Whether a menu on the `desktops` (the lowercased components of
/// `$XDG_CURRENT_DESKTOP`) offers the entry: see [`shown_on`]; a shown entry with a
/// `TryExec` key is offered only if that program is installed, which the caller
/// looks up.
pub fn launchable(entry: &DesktopInfo, desktops: &Vec<String>) -> (r: Offer)
    ensures
        r == if !shown_on(*entry, crate::text::strings_view(desktops@)) {
            Offer::Hidden
        } else {
            match entry.try_exec {
                Some(t) => Offer::IfInstalled(t),
                None => Offer::Shown,
            }
        },
{
    let application = match &entry.kind {
        Some(k) => {
            let cs = chars_of(k.as_str());
            let want = chars_of("Application");
            proof {
                reveal_strlit("Application");
            }
            let mut same = cs.len() == want.len();
            let mut i: usize = 0;
            while same && i < cs.len()
                invariant
                    cs@ == k@,
                    want@ == seq!['A', 'p', 'p', 'l', 'i', 'c', 'a', 't', 'i', 'o', 'n'],
                    i <= cs@.len(),
                    same ==> cs@.len() == want@.len(),
                    same ==> forall|x: int| 0 <= x < i ==> cs@[x] == want@[x],
                    !same ==> k@ != want@,
                decreases cs@.len() - i,
            {
                if cs[i] != want[i] {
                    same = false;
                }
                i = i + 1;
            }
            proof {
                if same {
                    assert(cs@ =~= want@);
                }
            }
            same
        },
        None => false,
    };
    if !application || entry.no_display || entry.hidden {
        return Offer::Hidden;
    }
    if entry.only_show_in.is_some() && !listed_in(&entry.only_show_in, desktops) {
        return Offer::Hidden;
    }
    if listed_in(&entry.not_show_in, desktops) {
        return Offer::Hidden;
    }
    match &entry.try_exec {
        Some(t) => Offer::IfInstalled(t.clone()),
        None => Offer::Shown,
    }
}

/// The desktop entry ids met so far while reading the data directories, in order.
/// The first occurrence of an id wins, so `$XDG_DATA_HOME/applications` overrides
/// the system directories.
pub struct Seen {
    ids: Vec<String>,
}

impl View for Seen {
    type V = Seq<Seq<char>>;

    closed spec fn view(&self) -> Seq<Seq<char>> {
        crate::text::strings_view(self.ids@)
    }
}

impl Seen {
    /// Nothing met yet.
    pub fn new() -> (r: Seen)
        ensures
            r@ == Seq::<Seq<char>>::empty(),
    {
        let r = Seen { ids: Vec::new() };
        assert(r@ =~= Seq::<Seq<char>>::empty());
        r
    }

    /// Records `id`; whether it is its first occurrence.
    pub fn insert(&mut self, id: &str) -> (r: bool)
        ensures
            r == !old(self)@.contains(id@),
            final(self)@ == if r {
                old(self)@.push(id@)
            } else {
                old(self)@
            },
    {
        let ghost ids = self@;
        let mut i: usize = 0;
        while i < self.ids.len()
            invariant
                i <= self.ids@.len(),
                ids == crate::text::strings_view(self.ids@),
                forall|k: int| 0 <= k < i ==> ids[k] != id@,
            decreases self.ids@.len() - i,
        {
            if crate::text::same_text(self.ids[i].as_str(), id) {
                assert(ids[i as int] == id@);
                return false;
            }
            i = i + 1;
        }
        assert(!ids.contains(id@)) by {
            if ids.contains(id@) {
                let k = choose|k: int| 0 <= k < ids.len() && ids[k] == id@;
                assert(ids[k] != id@);
            }
        }
        self.ids.push(id.to_owned());
        assert(self@ =~= ids.push(id@));
        true
    }
}
/// Searching finds an entry whose name the query misses but whose generic name it
/// matches.
pub proof fn law_generic_name_match_is_found(query: Seq<char>, entries: Seq<Entry>, i: int)
    requires
        !crate::text::blank(query),
        entries.len() <= usize::MAX,
        0 <= i < entries.len(),
        fuzzy_score(query, entries[i].name@) is None,
        generic_name_score(query, entries[i]) is Some,
    ensures
        search_spec(query, entries).contains(i as usize),
        entry_score(query, entries[i]) matches Some(t) && t >= generic_name_score(
            query,
            entries[i],
        )->0 / 2,
{
    law_other_matches_count_at_half(query, entries[i]);
    law_search_ranks_best_first(query, entries);
}
/// An application entry that is neither `NoDisplay` nor `Hidden` is offered on a
/// desktop that its `OnlyShowIn` list names anywhere in the list, ASCII case
/// ignored, unless its `NotShowIn` list names one of the desktops; and it is hidden
/// on every desktop when the list names none of them.
pub proof fn law_only_show_in_names_any_desktop(e: DesktopInfo, desktops: Seq<Seq<char>>, i: int, j: int)
    requires
        e.kind matches Some(k) && k@ == seq!['A', 'p', 'p', 'l', 'i', 'c', 'a', 't', 'i', 'o', 'n'],
        !e.no_display,
        !e.hidden,
        !listed(opt_strings(e.not_show_in), desktops),
        e.only_show_in matches Some(l) && 0 <= i < l@.len(),
        0 <= j < desktops.len(),
        same_ignoring_ascii_case(desktops[j], e.only_show_in->0@[i]@),
    ensures
        shown_on(e, desktops),
{
    let l = e.only_show_in->0;
    assert(crate::text::strings_view(l@)[i] == l@[i]@);
    assert(same_ignoring_ascii_case(desktops[j], crate::text::strings_view(l@)[i]));
}

/// An entry whose `OnlyShowIn` list names none of the desktops is hidden.
pub proof fn law_only_show_in_names_no_desktop(e: DesktopInfo, desktops: Seq<Seq<char>>)
    requires
        e.only_show_in matches Some(l) && forall|i: int, j: int|
            0 <= i < l@.len() && 0 <= j < desktops.len() ==> !same_ignoring_ascii_case(
                #[trigger] desktops[j],
                #[trigger] l@[i]@,
            ),
    ensures
        !shown_on(e, desktops),
{
    let l = e.only_show_in->0;
    let ls = crate::text::strings_view(l@);
    if names_one_of(ls, desktops) {
        let (i, j) = choose|i: int, j: int|
            0 <= i < ls.len() && 0 <= j < desktops.len() && #[trigger] same_ignoring_ascii_case(
                desktops[j],
                ls[i],
            );
        assert(ls[i] == l@[i]@);
    }
}
} // verus!
