//! Counting how often each distinct word occurs.

use vstd::prelude::*;
use crate::ranking::{distinct_names, entries_view, entry_view, Entry};
use crate::text::same_text;

verus! {

broadcast use vstd::string::group_string_axioms;

/// How many times `w` occurs in `ws`.
pub open spec fn occurrences(ws: Seq<Seq<char>>, w: Seq<char>) -> nat
    decreases ws.len(),
{
    if ws.len() == 0 {
        0
    } else {
        occurrences(ws.drop_last(), w) + if ws.last() == w {
            1nat
        } else {
            0nat
        }
    }
}

/// `t` counts the words of `ws`: one entry per distinct word, holding the
/// number of times it occurs.
pub open spec fn is_tally(t: Seq<(Seq<char>, nat)>, ws: Seq<Seq<char>>) -> bool {
    &&& distinct_names(t)
    &&& forall|k: int| 0 <= k < t.len() ==> #[trigger] t[k].1 == occurrences(ws, t[k].0)
    &&& forall|k: int| 0 <= k < t.len() ==> #[trigger] t[k].1 > 0
    &&& forall|j: int| 0 <= j < ws.len() ==> exists|k: int| 0 <= k < t.len() && #[trigger] t[k].0 == #[trigger] ws[j]
}

pub proof fn lemma_occurrences_bound(ws: Seq<Seq<char>>, w: Seq<char>)
    ensures
        occurrences(ws, w) <= ws.len(),
        occurrences(ws, w) > 0 ==> ws.contains(w),
    decreases ws.len(),
{
    if ws.len() > 0 {
        lemma_occurrences_bound(ws.drop_last(), w);
        if occurrences(ws.drop_last(), w) > 0 {
            let j = choose|j: int| 0 <= j < ws.drop_last().len() && ws.drop_last()[j] == w;
            assert(ws[j] == w);
        }
        if ws.last() == w {
            assert(ws[ws.len() - 1] == w);
        }
    }
}

/// Adds one occurrence of `w` to the tally.
pub fn add_word(t: &mut Vec<Entry>, w: String, Ghost(ws): Ghost<Seq<Seq<char>>>)
    requires
        is_tally(entries_view(old(t)@), ws),
        ws.len() < usize::MAX,
    ensures
        is_tally(entries_view(final(t)@), ws.push(w@)),
{
    let ghost old_t = entries_view(t@);
    let ghost ws2 = ws.push(w@);
    assert(ws2.drop_last() =~= ws);
    let mut k: usize = 0;
    while k < t.len()
        invariant
            old_t == entries_view(t@),
            is_tally(old_t, ws),
            ws.len() < usize::MAX,
            ws2 == ws.push(w@),
            ws2.drop_last() == ws,
            k <= t.len(),
            forall|j: int| 0 <= j < k ==> old_t[j].0 != w@,
        decreases t.len() - k,
    {
        assert(old_t[k as int] == entry_view(t@[k as int]));
        if same_text(t[k].0.as_str(), w.as_str()) {
            let c = t[k].1;
            proof {
                lemma_occurrences_bound(ws, w@);
                assert(old_t[k as int].0 == w@);
                assert(old_t[k as int].1 == occurrences(ws, old_t[k as int].0));
                assert(ws2.last() == w@);
            }
            let name = t[k].0.clone();
            t.set(k, (name, c + 1));
            proof {
                let nt = entries_view(t@);
                assert(nt =~= old_t.update(k as int, (w@, (c + 1) as nat)));
                assert forall|j: int| 0 <= j < nt.len() implies #[trigger] nt[j].1 == occurrences(ws2, nt[j].0) by {
                    if j != k {
                        assert(nt[j] == old_t[j]);
                        assert(old_t[j].0 != old_t[k as int].0);
                        assert(old_t[j].1 == occurrences(ws, old_t[j].0));
                    }
                }
                assert forall|i: int| 0 <= i < ws2.len() implies exists|j: int| 0 <= j < nt.len() && #[trigger] nt[j].0 == #[trigger] ws2[i] by {
                    if i == ws.len() {
                        assert(nt[k as int].0 == ws2[i]);
                    } else {
                        assert(ws2[i] == ws[i]);
                        let j = choose|j: int| 0 <= j < old_t.len() && #[trigger] old_t[j].0 == ws[i];
                        assert(nt[j].0 == old_t[j].0);
                    }
                }
                assert forall|j: int| 0 <= j < nt.len() implies #[trigger] nt[j].1 > 0 by {
                    if j != k {
                        assert(nt[j] == old_t[j]);
                    }
                }
            }
            return;
        }
        k = k + 1;
    }
    proof {
        lemma_occurrences_bound(ws, w@);
    }
    t.push((w, 1));
    proof {
        let nt = entries_view(t@);
        assert(nt =~= old_t.push((w@, 1nat)));
        assert(occurrences(ws, w@) == 0) by {
            if occurrences(ws, w@) > 0 {
                let i = choose|i: int| 0 <= i < ws.len() && ws[i] == w@;
                let j = choose|j: int| 0 <= j < old_t.len() && #[trigger] old_t[j].0 == ws[i];
            }
        }
        assert forall|j: int| 0 <= j < nt.len() implies #[trigger] nt[j].1 == occurrences(ws2, nt[j].0) by {
            if j < old_t.len() {
                assert(nt[j] == old_t[j]);
                assert(old_t[j].1 == occurrences(ws, old_t[j].0));
                assert(old_t[j].0 != w@);
            }
        }
        assert forall|i: int| 0 <= i < ws2.len() implies exists|j: int| 0 <= j < nt.len() && #[trigger] nt[j].0 == #[trigger] ws2[i] by {
            if i == ws.len() {
                assert(nt[old_t.len() as int].0 == ws2[i]);
            } else {
                assert(ws2[i] == ws[i]);
                let j = choose|j: int| 0 <= j < old_t.len() && #[trigger] old_t[j].0 == ws[i];
                assert(nt[j].0 == old_t[j].0);
            }
        }
        assert forall|j: int| 0 <= j < nt.len() implies #[trigger] nt[j].1 > 0 by {
            if j < old_t.len() {
                assert(nt[j] == old_t[j]);
            }
        }
    }
}

} // verus!
