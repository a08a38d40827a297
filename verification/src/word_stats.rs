//! Word analysis of a text: after lower-casing and turning punctuation into
//! spaces, how many words it has and how many of them are distinct.

use vstd::prelude::*;
use crate::text::{chars_of, is_punct, lowered, lemma_words_shape, same_chars, split_words, string_of, to_lowercase_str, views, words};

verus! {

broadcast use vstd::string::group_string_axioms;

/// Each punctuation character replaced by a space.
pub open spec fn blank_punct(s: Seq<char>) -> Seq<char> {
    s.map_values(|c: char| if is_punct(c) { ' ' } else { c })
}

/// Lower-cases the whole text, then turns `.,!?;:` into spaces.
pub fn normalize_text(input: &str) -> (out: String)
    ensures
        out@ == blank_punct(lowered(input@)),
{
    let lower = to_lowercase_str(input);
    let cs = chars_of(lower.as_str());
    let mut out: Vec<char> = Vec::new();
    let mut i: usize = 0;
    while i < cs.len()
        invariant
            i <= cs.len(),
            out@ == blank_punct(cs@.take(i as int)),
        decreases cs.len() - i,
    {
        let ch = cs[i];
        if ch == '.' || ch == ',' || ch == '!' || ch == '?' || ch == ';' || ch == ':' {
            out.push(' ');
        } else {
            out.push(ch);
        }
        assert(out@ =~= blank_punct(cs@.take(i as int + 1)));
        i = i + 1;
    }
    assert(cs@.take(cs.len() as int) =~= cs@);
    string_of(&out)
}

fn contains_chars(seen: &Vec<Vec<char>>, w: &Vec<char>) -> (b: bool)
    ensures
        b == views(seen@).contains(w@),
{
    let ghost sv = views(seen@);
    let mut k: usize = 0;
    while k < seen.len()
        invariant
            sv == views(seen@),
            k <= seen.len(),
            forall|m: int| 0 <= m < k ==> sv[m] != w@,
        decreases seen.len() - k,
    {
        assert(sv[k as int] == seen@[k as int]@);
        if same_chars(&seen[k], w) {
            return true;
        }
        k = k + 1;
    }
    false
}

/// Counts of a word analysis.
#[derive(Debug, Clone, PartialEq, Eq)]
pub struct AnalysisResult {
    pub total_words: usize,
    pub unique_words: usize,
}

/// The words an analysis counts.
pub open spec fn analyzed_words(input: Seq<char>) -> Seq<Seq<char>> {
    words(blank_punct(lowered(input)))
}

/// Counts the words of the normalised text and the distinct ones among them.
pub fn analyze_text(input: &str) -> (r: AnalysisResult)
    ensures
        r.total_words == analyzed_words(input@).len(),
        r.unique_words == analyzed_words(input@).to_set().len(),
        r.unique_words <= r.total_words,
{
    let normalized = normalize_text(input);
    let cs = chars_of(normalized.as_str());
    let ws = split_words(&cs);
    let ghost all = views(ws@);
    proof {
        lemma_words_shape(cs@);
    }
    let mut seen: Vec<Vec<char>> = Vec::new();
    let mut i: usize = 0;
    assert(views(seen@) =~= Seq::<Seq<char>>::empty());
    assert(all.take(0).to_set() =~= Seq::<Seq<char>>::empty().to_set());
    while i < ws.len()
        invariant
            all == views(ws@),
            i <= ws.len(),
            seen@.len() <= i,
            views(seen@).no_duplicates(),
            views(seen@).to_set() == all.take(i as int).to_set(),
        decreases ws.len() - i,
    {
        let ghost sv = views(seen@);
        let ghost w = all[i as int];
        assert(ws@[i as int]@ == w);
        assert(all.take(i as int + 1) =~= all.take(i as int) + seq![w]);
        proof {
            Seq::lemma_to_set_insert_commutes(all.take(i as int), w);
        }
        if !contains_chars(&seen, &ws[i]) {
            seen.push(ws[i].clone());
            proof {
                assert(views(seen@) =~= sv + seq![w]);
                Seq::lemma_to_set_insert_commutes(sv, w);
            }
        } else {
            proof {
                assert(sv.to_set().contains(w));
                assert(all.take(i as int + 1).to_set() =~= sv.to_set());
            }
        }
        i = i + 1;
    }
    assert(all.take(ws.len() as int) =~= all);
    proof {
        views(seen@).unique_seq_to_set();
    }
    AnalysisResult { total_words: ws.len(), unique_words: seen.len() }
}

/// Normalised text holds no punctuation.
pub proof fn law_normalized_has_no_punctuation(input: Seq<char>)
    ensures
        forall|i: int| 0 <= i < blank_punct(lowered(input)).len() ==> !is_punct(
            #[trigger] blank_punct(lowered(input))[i],
        ),
{
}

/// There are never more distinct words than words.
pub proof fn law_unique_at_most_total(input: Seq<char>)
    ensures
        analyzed_words(input).to_set().len() <= analyzed_words(input).len(),
{
    analyzed_words(input).lemma_cardinality_of_set();
}

/// There are never more words than characters in the normalised text.
pub proof fn law_total_at_most_normalized_length(input: Seq<char>)
    ensures
        analyzed_words(input).len() <= blank_punct(lowered(input)).len(),
{
    lemma_words_shape(blank_punct(lowered(input)));
}

} // verus!
