//! Stable sorting of keyed items.

use vstd::prelude::*;

verus! {

/// `x` placed into `sorted` after every element whose key is at most its own.
pub open spec fn insert_by_key<T>(sorted: Seq<(u64, T)>, x: (u64, T)) -> Seq<(u64, T)>
    decreases sorted.len(),
{
    if sorted.len() == 0 {
        seq![x]
    } else if sorted.last().0 <= x.0 {
        sorted.push(x)
    } else {
        insert_by_key(sorted.drop_last(), x).push(sorted.last())
    }
}

/// `s` stably sorted by key: items with equal keys keep their order.
pub open spec fn sort_by_key<T>(s: Seq<(u64, T)>) -> Seq<(u64, T)>
    decreases s.len(),
{
    if s.len() == 0 {
        s
    } else {
        insert_by_key(sort_by_key(s.drop_last()), s.last())
    }
}

pub proof fn lemma_insert_by_key<T>(q: Seq<(u64, T)>, x: (u64, T), p: int)
    requires
        0 <= p <= q.len(),
        forall|k: int| p <= k < q.len() ==> (#[trigger] q[k]).0 > x.0,
        p == 0 || q[p - 1].0 <= x.0,
    ensures
        insert_by_key(q, x) == q.insert(p, x),
    decreases q.len() - p,
{
    if q.len() == 0 {
        assert(q.insert(p, x) =~= seq![x]);
    } else if p == q.len() {
        assert(q.insert(p, x) =~= q.push(x));
    } else {
        assert(q[q.len() - 1].0 > x.0);
        lemma_insert_by_key(q.drop_last(), x, p);
        assert(q.drop_last().insert(p, x).push(q.last()) =~= q.insert(p, x));
    }
}

pub proof fn lemma_insert_by_key_len<T>(q: Seq<(u64, T)>, x: (u64, T))
    ensures
        insert_by_key(q, x).len() == q.len() + 1,
    decreases q.len(),
{
    if q.len() > 0 && q.last().0 > x.0 {
        lemma_insert_by_key_len(q.drop_last(), x);
    }
}

pub proof fn lemma_sort_by_key_len<T>(s: Seq<(u64, T)>)
    ensures
        sort_by_key(s).len() == s.len(),
    decreases s.len(),
{
    if s.len() > 0 {
        lemma_sort_by_key_len(s.drop_last());
        lemma_insert_by_key_len(sort_by_key(s.drop_last()), s.last());
    }
}

/// Sorts `v` stably by key (an insertion sort).
pub fn sort_stable<T>(v: &mut Vec<(u64, T)>)
    ensures
        final(v)@ == sort_by_key(old(v)@),
{
    let ghost orig = v@;
    let mut i: usize = 0;
    assert(orig.take(0) =~= Seq::<(u64, T)>::empty());
    assert(v@ =~= sort_by_key(orig.take(0)) + orig.skip(0));
    while i < v.len()
        invariant
            i <= v@.len() == orig.len(),
            v@ == sort_by_key(orig.take(i as int)) + orig.skip(i as int),
        decreases v@.len() - i,
    {
        let ghost prefix = sort_by_key(orig.take(i as int));
        proof {
            lemma_sort_by_key_len(orig.take(i as int));
        }
        assert(v@.subrange(0, i as int) =~= prefix);
        assert(v@[i as int] == orig[i as int]);
        let ghost n = v@.len();
        let ghost whole = v@;
        let x = v.remove(i);
        assert(v@ =~= prefix + orig.skip(i + 1));
        let mut p = i;
        while p > 0 && v[p - 1].0 > x.0
            invariant
                p <= i < n,
                v@.len() + 1 == n,
                v@.subrange(0, i as int) == prefix,
                forall|k: int| p <= k < i ==> (#[trigger] prefix[k]).0 > x.0,
            decreases p,
        {
            assert(prefix[p - 1] == v@.subrange(0, i as int)[p - 1]);
            p = p - 1;
        }
        proof {
            if p > 0 {
                assert(prefix[p - 1] == v@.subrange(0, i as int)[p - 1]);
            }
            lemma_insert_by_key(prefix, x, p as int);
            assert(orig.take(i + 1).drop_last() =~= orig.take(i as int));
            assert(orig.take(i + 1).last() == x);
        }
        let ghost before = v@;
        v.insert(p, x);
        assert(prefix.insert(p as int, x) + orig.skip(i + 1) =~= (prefix + orig.skip(i + 1)).insert(
            p as int,
            x,
        ));
        assert(v@ =~= sort_by_key(orig.take(i + 1)) + orig.skip(i + 1));
        i = i + 1;
    }
    assert(orig.take(i as int) =~= orig);
    assert(v@ =~= sort_by_key(orig));
}


/// Whether the keys never decrease.
pub open spec fn sorted_by_key<T>(s: Seq<(u64, T)>) -> bool {
    forall|a: int, b: int| 0 <= a < b < s.len() ==> (#[trigger] s[a]).0 <= (#[trigger] s[b]).0
}

/// Whether the keys never decrease, and items with equal keys come in increasing
/// order of their second component.
pub open spec fn sorted_lex(s: Seq<(u64, usize)>) -> bool {
    forall|a: int, b: int|
        0 <= a < b < s.len() ==> (#[trigger] s[a]).0 < (#[trigger] s[b]).0 || (s[a].0 == s[b].0
            && s[a].1 < s[b].1)
}

proof fn lemma_insert_keeps<T>(q: Seq<(u64, T)>, x: (u64, T))
    ensures
        forall|y: (u64, T)| #[trigger] insert_by_key(q, x).contains(y) ==> y == x || q.contains(y),
        forall|y: (u64, T)| q.contains(y) ==> #[trigger] insert_by_key(q, x).contains(y),
        insert_by_key(q, x).contains(x),
    decreases q.len(),
{
    lemma_insert_by_key_len(q, x);
    if q.len() == 0 {
        assert(insert_by_key(q, x) =~= seq![x]);
        assert(insert_by_key(q, x)[0] == x);
    } else if q.last().0 <= x.0 {
        let r = q.push(x);
        assert(r[q.len() as int] == x);
        assert forall|y: (u64, T)| #[trigger] r.contains(y) implies y == x || q.contains(y) by {
            let k = choose|k: int| 0 <= k < r.len() && r[k] == y;
            if k < q.len() {
                assert(q[k] == y);
            }
        }
        assert forall|y: (u64, T)| q.contains(y) implies #[trigger] r.contains(y) by {
            let k = choose|k: int| 0 <= k < q.len() && q[k] == y;
            assert(r[k] == y);
        }
    } else {
        let d = q.drop_last();
        lemma_insert_keeps(d, x);
        let m = insert_by_key(d, x);
        let r = m.push(q.last());
        lemma_insert_by_key_len(d, x);
        assert(r[m.len() as int] == q.last());
        assert forall|y: (u64, T)| #[trigger] r.contains(y) implies y == x || q.contains(y) by {
            let k = choose|k: int| 0 <= k < r.len() && r[k] == y;
            if k < m.len() {
                assert(m[k] == y);
                assert(m.contains(y));
                if y != x {
                    let k2 = choose|k2: int| 0 <= k2 < d.len() && d[k2] == y;
                    assert(q[k2] == y);
                }
            } else {
                assert(q[q.len() - 1] == y);
            }
        }
        assert forall|y: (u64, T)| q.contains(y) implies #[trigger] r.contains(y) by {
            let k = choose|k: int| 0 <= k < q.len() && q[k] == y;
            if k < q.len() - 1 {
                assert(d[k] == y);
                assert(d.contains(y));
                assert(m.contains(y));
                let k2 = choose|k2: int| 0 <= k2 < m.len() && m[k2] == y;
                assert(r[k2] == y);
            }
        }
        assert(m.contains(x));
        let k3 = choose|k3: int| 0 <= k3 < m.len() && m[k3] == x;
        assert(r[k3] == x);
    }
}

/// Sorting keeps exactly the items it was given.
pub proof fn lemma_sort_by_key_items<T>(s: Seq<(u64, T)>)
    ensures
        forall|y: (u64, T)| #[trigger] sort_by_key(s).contains(y) <==> s.contains(y),
    decreases s.len(),
{
    if s.len() > 0 {
        let d = s.drop_last();
        lemma_sort_by_key_items(d);
        lemma_insert_keeps(sort_by_key(d), s.last());
        assert forall|y: (u64, T)| #[trigger] sort_by_key(s).contains(y) <==> s.contains(y) by {
            if sort_by_key(s).contains(y) {
                if y != s.last() {
                    assert(d.contains(y));
                    let k = choose|k: int| 0 <= k < d.len() && d[k] == y;
                    assert(s[k] == y);
                } else {
                    assert(s[s.len() - 1] == y);
                }
            }
            if s.contains(y) {
                let k = choose|k: int| 0 <= k < s.len() && s[k] == y;
                if k < s.len() - 1 {
                    assert(d[k] == y);
                    assert(d.contains(y));
                }
            }
        }
    } else {
        assert forall|y: (u64, T)| #[trigger] sort_by_key(s).contains(y) <==> s.contains(y) by {}
    }
}

proof fn lemma_insert_sorted<T>(q: Seq<(u64, T)>, x: (u64, T))
    requires
        sorted_by_key(q),
    ensures
        sorted_by_key(insert_by_key(q, x)),
    decreases q.len(),
{
    lemma_insert_keeps(q, x);
    if q.len() == 0 {
    } else if q.last().0 <= x.0 {
        let r = q.push(x);
        assert forall|a: int, b: int| 0 <= a < b < r.len() implies (#[trigger] r[a]).0 <= (#[trigger] r[b]).0 by {
            if b == q.len() {
                if a < q.len() - 1 {
                    assert(q[a].0 <= q[q.len() - 1].0);
                }
            } else {
                assert(q[a].0 <= q[b].0);
            }
        }
    } else {
        let d = q.drop_last();
        assert(sorted_by_key(d)) by {
            assert forall|a: int, b: int| 0 <= a < b < d.len() implies (#[trigger] d[a]).0 <= (#[trigger] d[b]).0 by {
                assert(q[a].0 <= q[b].0);
            }
        }
        lemma_insert_sorted(d, x);
        lemma_insert_keeps(d, x);
        let m = insert_by_key(d, x);
        let r = m.push(q.last());
        assert forall|a: int, b: int| 0 <= a < b < r.len() implies (#[trigger] r[a]).0 <= (#[trigger] r[b]).0 by {
            if b == m.len() {
                let y = m[a];
                assert(m.contains(y));
                if y != x {
                    let k = choose|k: int| 0 <= k < d.len() && d[k] == y;
                    assert(q[k].0 <= q[q.len() - 1].0);
                }
            } else {
                assert(m[a].0 <= m[b].0);
            }
        }
    }
}

/// Sorting orders by key.
pub proof fn lemma_sort_by_key_sorted<T>(s: Seq<(u64, T)>)
    ensures
        sorted_by_key(sort_by_key(s)),
    decreases s.len(),
{
    if s.len() > 0 {
        lemma_sort_by_key_sorted(s.drop_last());
        lemma_insert_sorted(sort_by_key(s.drop_last()), s.last());
    }
}

proof fn lemma_insert_lex(q: Seq<(u64, usize)>, x: (u64, usize))
    requires
        sorted_lex(q),
        forall|k: int| 0 <= k < q.len() ==> (#[trigger] q[k]).1 < x.1,
    ensures
        sorted_lex(insert_by_key(q, x)),
    decreases q.len(),
{
    lemma_insert_keeps(q, x);
    if q.len() == 0 {
    } else if q.last().0 <= x.0 {
        let r = q.push(x);
        assert forall|a: int, b: int| 0 <= a < b < r.len() implies (#[trigger] r[a]).0 < (#[trigger] r[b]).0 || (r[a].0 == r[b].0 && r[a].1 < r[b].1) by {
            if b == q.len() {
                if a < q.len() - 1 {
                    assert(q[a].0 < q[q.len() - 1].0 || (q[a].0 == q[q.len() - 1].0 && q[a].1 < q[q.len() - 1].1));
                }
                assert(q[a].1 < x.1);
            } else {
                assert(q[a].0 < q[b].0 || (q[a].0 == q[b].0 && q[a].1 < q[b].1));
            }
        }
    } else {
        let d = q.drop_last();
        assert(sorted_lex(d)) by {
            assert forall|a: int, b: int| 0 <= a < b < d.len() implies (#[trigger] d[a]).0 < (#[trigger] d[b]).0 || (d[a].0 == d[b].0 && d[a].1 < d[b].1) by {
                assert(q[a].0 < q[b].0 || (q[a].0 == q[b].0 && q[a].1 < q[b].1));
            }
        }
        assert forall|k: int| 0 <= k < d.len() implies (#[trigger] d[k]).1 < x.1 by {
            assert(q[k].1 < x.1);
        }
        lemma_insert_lex(d, x);
        lemma_insert_keeps(d, x);
        let m = insert_by_key(d, x);
        let r = m.push(q.last());
        assert forall|a: int, b: int| 0 <= a < b < r.len() implies (#[trigger] r[a]).0 < (#[trigger] r[b]).0 || (r[a].0 == r[b].0 && r[a].1 < r[b].1) by {
            if b == m.len() {
                let y = m[a];
                assert(m.contains(y));
                if y != x {
                    let k = choose|k: int| 0 <= k < d.len() && d[k] == y;
                    assert(q[k].0 < q[q.len() - 1].0 || (q[k].0 == q[q.len() - 1].0 && q[k].1 < q[q.len() - 1].1));
                }
            } else {
                assert(m[a].0 < m[b].0 || (m[a].0 == m[b].0 && m[a].1 < m[b].1));
            }
        }
    }
}

/// Sorting items whose second components increase orders them by key, and items with
/// equal keys by their second component: the sort is stable.
pub proof fn lemma_sort_by_key_stable(s: Seq<(u64, usize)>)
    requires
        forall|a: int, b: int| 0 <= a < b < s.len() ==> (#[trigger] s[a]).1 < (#[trigger] s[b]).1,
    ensures
        sorted_lex(sort_by_key(s)),
    decreases s.len(),
{
    if s.len() > 0 {
        let d = s.drop_last();
        assert forall|a: int, b: int| 0 <= a < b < d.len() implies (#[trigger] d[a]).1 < (#[trigger] d[b]).1 by {
            assert(s[a].1 < s[b].1);
        }
        lemma_sort_by_key_stable(d);
        lemma_sort_by_key_items(d);
        assert forall|k: int| 0 <= k < sort_by_key(d).len() implies (#[trigger] sort_by_key(d)[k]).1 < s.last().1 by {
            let y = sort_by_key(d)[k];
            assert(sort_by_key(d).contains(y));
            let j = choose|j: int| 0 <= j < d.len() && d[j] == y;
            assert(s[j].1 < s[s.len() - 1].1);
        }
        lemma_insert_lex(sort_by_key(d), s.last());
    }
}
} // verus!
