//! Lexicographic order on text and the ranking of `(name, count)` entries:
//! higher count first, then name in ascending order.

use vstd::prelude::*;
use crate::text::chars_of;

verus! {

broadcast use vstd::string::group_string_axioms;

/// `a` sorts strictly before `b`, character by character (code points),
/// a proper prefix sorting first. On UTF-8 text this is the byte order that
/// `str`'s `Ord` uses.
pub open spec fn lex_lt(a: Seq<char>, b: Seq<char>) -> bool
    decreases a.len(),
{
    if b.len() == 0 {
        false
    } else if a.len() == 0 {
        true
    } else if a[0] < b[0] {
        true
    } else if a[0] > b[0] {
        false
    } else {
        lex_lt(a.drop_first(), b.drop_first())
    }
}

/// `lex_lt` is a strict total order.
pub proof fn lemma_lex_order(a: Seq<char>, b: Seq<char>, c: Seq<char>)
    ensures
        !lex_lt(a, a),
        lex_lt(a, b) ==> !lex_lt(b, a),
        a != b ==> lex_lt(a, b) || lex_lt(b, a),
        lex_lt(a, b) && lex_lt(b, c) ==> lex_lt(a, c),
    decreases a.len(),
{
    if a.len() > 0 && b.len() > 0 && c.len() > 0 {
        lemma_lex_order(a.drop_first(), b.drop_first(), c.drop_first());
    }
    if a.len() > 0 && b.len() > 0 {
        lemma_lex_order(a.drop_first(), b.drop_first(), b.drop_first());
        if a != b && a[0] == b[0] {
            assert(a.drop_first() != b.drop_first()) by {
                if a.drop_first() == b.drop_first() {
                    assert(a =~= seq![a[0]] + a.drop_first());
                    assert(b =~= seq![b[0]] + b.drop_first());
                }
            }
        }
    }
    if a.len() > 0 {
        lemma_lex_order(a.drop_first(), a.drop_first(), a.drop_first());
    }
    if a.len() == 0 && b.len() == 0 {
        assert(a =~= b);
    }
}

/// Whether `a` sorts strictly before `b`.
pub fn text_less(a: &str, b: &str) -> (lt: bool)
    ensures
        lt == lex_lt(a@, b@),
{
    let x = chars_of(a);
    let y = chars_of(b);
    let mut i: usize = 0;
    assert(x@.skip(0) =~= x@);
    assert(y@.skip(0) =~= y@);
    while i < x.len() && i < y.len() && x[i] == y[i]
        invariant
            i <= x.len(),
            i <= y.len(),
            lex_lt(x@, y@) == lex_lt(x@.skip(i as int), y@.skip(i as int)),
        decreases x.len() - i,
    {
        assert(x@.skip(i as int).drop_first() =~= x@.skip(i as int + 1));
        assert(y@.skip(i as int).drop_first() =~= y@.skip(i as int + 1));
        i = i + 1;
    }
    if i == y.len() {
        false
    } else if i == x.len() {
        true
    } else {
        x[i] < y[i]
    }
}

/// A name with its count.
pub type Entry = (String, usize);

/// The name and count of an entry, as values.
pub open spec fn entry_view(e: Entry) -> (Seq<char>, nat) {
    (e.0@, e.1 as nat)
}

/// The names and counts held by a vector of entries.
pub open spec fn entries_view(v: Seq<Entry>) -> Seq<(Seq<char>, nat)> {
    v.map_values(|e: Entry| entry_view(e))
}

/// Entry `a` ranks before entry `b`: higher count, or the same count and a
/// name that sorts first.
pub open spec fn ranks_before(a: (Seq<char>, nat), b: (Seq<char>, nat)) -> bool {
    a.1 > b.1 || (a.1 == b.1 && lex_lt(a.0, b.0))
}

/// No name occurs twice.
pub open spec fn distinct_names(v: Seq<(Seq<char>, nat)>) -> bool {
    forall|i: int, j: int| 0 <= i < j < v.len() ==> v[i].0 != v[j].0
}

/// Every entry ranks before all later ones.
pub open spec fn is_ranked(v: Seq<(Seq<char>, nat)>) -> bool {
    forall|i: int, j: int| 0 <= i < j < v.len() ==> ranks_before(v[i], v[j])
}

/// `top` holds the `n` best-ranked entries of `all`, best first: it is
/// ranked, drawn from `all`, as long as `n` allows, and whatever it leaves
/// out ranks after all it keeps.
pub open spec fn is_top(top: Seq<(Seq<char>, nat)>, all: Seq<(Seq<char>, nat)>, n: nat) -> bool {
    &&& is_ranked(top)
    &&& top.len() == if n < all.len() {
        n
    } else {
        all.len()
    }
    &&& forall|i: int| 0 <= i < top.len() ==> all.contains(#[trigger] top[i])
    &&& forall|e: (Seq<char>, nat)|
        #![trigger all.contains(e)]
        all.contains(e) && !top.contains(e) ==> forall|i: int|
            0 <= i < top.len() ==> ranks_before(#[trigger] top[i], e)
}

/// The ranking is a strict total order on entries with different names.
pub proof fn lemma_ranks_before_order(a: (Seq<char>, nat), b: (Seq<char>, nat), c: (Seq<char>, nat))
    ensures
        !ranks_before(a, a),
        ranks_before(a, b) ==> !ranks_before(b, a),
        a.0 != b.0 ==> ranks_before(a, b) || ranks_before(b, a),
        ranks_before(a, b) && ranks_before(b, c) ==> ranks_before(a, c),
{
    lemma_lex_order(a.0, b.0, c.0);
}

proof fn lemma_insert_keeps_ranked(s: Seq<(Seq<char>, nat)>, p: int, e: (Seq<char>, nat))
    requires
        is_ranked(s),
        0 <= p <= s.len(),
        forall|k: int| 0 <= k < p ==> ranks_before(#[trigger] s[k], e),
        p < s.len() ==> ranks_before(e, s[p]),
    ensures
        is_ranked(s.insert(p, e)),
{
    let t = s.insert(p, e);
    assert forall|a: int, b: int| 0 <= a < b < t.len() implies ranks_before(t[a], t[b]) by {
        if a < p {
            if b < p {
            } else if b == p {
            } else {
                assert(t[b] == s[b - 1]);
            }
        } else if a == p {
            assert(t[b] == s[b - 1]);
            if b - 1 > p {
                lemma_ranks_before_order(e, s[p], s[b - 1]);
            }
        } else {
            assert(t[a] == s[a - 1]);
            assert(t[b] == s[b - 1]);
        }
    }
}

/// The entries of `v`, best-ranked first, cut to the first `n`.
pub fn top_entries(v: &Vec<Entry>, n: usize) -> (top: Vec<Entry>)
    requires
        distinct_names(entries_view(v@)),
    ensures
        is_top(entries_view(top@), entries_view(v@), n as nat),
{
    let ghost all = entries_view(v@);
    let mut sorted: Vec<Entry> = Vec::new();
    let mut i: usize = 0;
    while i < v.len()
        invariant
            all == entries_view(v@),
            distinct_names(all),
            i <= v.len(),
            sorted@.len() == i,
            is_ranked(entries_view(sorted@)),
            forall|k: int|
                0 <= k < i ==> all.take(i as int).contains(#[trigger] entries_view(sorted@)[k]),
            forall|j: int| 0 <= j < i ==> entries_view(sorted@).contains(#[trigger] all[j]),
        decreases v.len() - i,
    {
        let e: Entry = (v[i].0.clone(), v[i].1);
        let ghost ev = entry_view(e);
        assert(ev == all[i as int]);
        let ghost s = entries_view(sorted@);
        assert forall|k: int| 0 <= k < s.len() implies #[trigger] s[k].0 != ev.0 by {
            assert(all.take(i as int).contains(s[k]));
            let j = choose|j: int| 0 <= j < i && all.take(i as int)[j] == s[k];
            assert(all[j] == s[k]);
        }
        let mut p: usize = 0;
        while p < sorted.len() && !(e.1 > sorted[p].1 || (e.1 == sorted[p].1 && text_less(
            e.0.as_str(),
            sorted[p].0.as_str(),
        )))
            invariant
                s == entries_view(sorted@),
                ev == entry_view(e),
                p <= sorted@.len(),
                forall|k: int| 0 <= k < p ==> !ranks_before(ev, #[trigger] s[k]),
            decreases sorted@.len() - p,
        {
            assert(s[p as int] == entry_view(sorted@[p as int]));
            p = p + 1;
        }
        proof {
            if p < sorted.len() {
                assert(s[p as int] == entry_view(sorted@[p as int]));
            }
            assert forall|k: int| 0 <= k < p implies ranks_before(#[trigger] s[k], ev) by {
                lemma_ranks_before_order(s[k], ev, ev);
            }
            lemma_insert_keeps_ranked(s, p as int, ev);
        }
        sorted.insert(p, e);
        proof {
            let t = entries_view(sorted@);
            assert(t =~= s.insert(p as int, ev));
            assert forall|k: int| 0 <= k < i + 1 implies all.take(i + 1).contains(#[trigger] t[k]) by {
                if k < p {
                    assert(t[k] == s[k]);
                    assert(all.take(i as int).contains(s[k]));
                    let j = choose|j: int| 0 <= j < i && all.take(i as int)[j] == s[k];
                    assert(all.take(i + 1)[j] == s[k]);
                } else if k == p {
                    assert(all.take(i + 1)[i as int] == ev);
                } else {
                    assert(t[k] == s[k - 1]);
                    assert(all.take(i as int).contains(s[k - 1]));
                    let j = choose|j: int| 0 <= j < i && all.take(i as int)[j] == s[k - 1];
                    assert(all.take(i + 1)[j] == s[k - 1]);
                }
            }
            assert forall|j: int| 0 <= j < i + 1 implies t.contains(#[trigger] all[j]) by {
                if j == i {
                    assert(t[p as int] == ev);
                } else {
                    assert(s.contains(all[j]));
                    let k = choose|k: int| 0 <= k < s.len() && s[k] == all[j];
                    if k < p {
                        assert(t[k] == s[k]);
                    } else {
                        assert(t[k + 1] == s[k]);
                    }
                }
            }
        }
        i = i + 1;
    }
    let ghost s = entries_view(sorted@);
    assert(all.take(v.len() as int) =~= all);
    sorted.truncate(n);
    proof {
        let top = entries_view(sorted@);
        assert(top =~= s.take(top.len() as int));
        assert forall|e: (Seq<char>, nat)| all.contains(e) && !top.contains(e) implies forall|i: int|
            0 <= i < top.len() ==> ranks_before(#[trigger] top[i], e) by {
            let j = choose|j: int| 0 <= j < all.len() && all[j] == e;
            assert(s.contains(all[j]));
            let k = choose|k: int| 0 <= k < s.len() && s[k] == e;
            if k < top.len() {
                assert(top[k] == e);
            }
            assert forall|i: int| 0 <= i < top.len() implies ranks_before(#[trigger] top[i], e) by {
                assert(top[i] == s[i]);
            }
        }
        assert forall|i: int| 0 <= i < top.len() implies all.contains(#[trigger] top[i]) by {
            assert(top[i] == s[i]);
            assert(all.take(all.len() as int).contains(s[i]));
        }
    }
    sorted
}

} // verus!
