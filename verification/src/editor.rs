//! Line editing helpers for an interactive text prompt: length, word count,
//! suffixes, upper-casing and whole-word replacement.

use vstd::prelude::*;
use vstd::string::StringSliceAdditionalSpecFns;
use crate::text::{
    ascii_upper, is_ascii, is_ascii_text,
    chars_of, count_words, is_ws, lemma_no_words_iff_blank, lemma_words_after_ws, push_char, push_str, same_text, string_of, trim, trim_end, trim_end_str,
    trim_str, words,
};

verus! {

broadcast use vstd::string::group_string_axioms;

/// A line as read from input, with its trailing whitespace (newline included) removed.
pub fn finish_line(input: &str) -> (line: String)
    ensures
        line@ == trim_end(input@),
{
    trim_end_str(input).to_owned()
}

/// Length of `text` in UTF-8 bytes.
pub fn show_length(text: &str) -> (n: usize)
    ensures
        n == text.spec_bytes().len() as usize,
{
    text.len()
}

/// Number of whitespace-separated words in `text`.
pub fn word_count(text: &str) -> (n: usize)
    ensures
        n == words(text@).len(),
{
    let cs = chars_of(text);
    count_words(&cs)
}

/// Appends a space and `suffix` to `text`, unless `suffix` is empty.
pub fn append_suffix(text: &mut String, suffix: &str)
    ensures
        final(text)@ == if suffix@.len() == 0 {
            old(text)@
        } else {
            old(text)@.push(' ') + suffix@
        },
{
    if !suffix.is_empty() {
        push_char(text, ' ');
        push_str(text, suffix);
    }
}

/// Two texts joined by a space have as many words as both together, and a
/// text has no words exactly when it is blank.
pub proof fn law_joined_word_count(a: Seq<char>, b: Seq<char>)
    ensures
        words(a + seq![' '] + b).len() == words(a).len() + words(b).len(),
        words(a).len() == 0 <==> trim(a).len() == 0,
{
    let s = a + seq![' '];
    assert(s.drop_last() =~= a);
    assert(is_ws(s.last()));
    assert(words(s) == words(a));
    lemma_words_after_ws(s, b);
    lemma_no_words_iff_blank(a);
}

/// The upper-case mapping of a string (std's `str::to_uppercase`).
pub uninterp spec fn uppercase(s: Seq<char>) -> Seq<char>;

/// What `str::to_uppercase` gives: for ASCII text, each `a`-`z` raised and
/// everything else kept; otherwise the Unicode mapping `uppercase`.
pub open spec fn uppered(s: Seq<char>) -> Seq<char> {
    if is_ascii_text(s) {
        s.map_values(|c: char| ascii_upper(c))
    } else {
        uppercase(s)
    }
}

/// Trusted: calls `str::to_uppercase`, whose Unicode mapping is named
/// `uppercase`. Of ASCII text it states what std documents of the ASCII
/// range: `a`-`z` become `A`-`Z`, every other character stays (as
/// `to_ascii_uppercase` does).
#[verifier::external_body]
fn str_to_uppercase(s: &str) -> (u: String)
    ensures
        u@ == uppercase(s@),
        is_ascii_text(s@) ==> u@ == s@.map_values(|c: char| ascii_upper(c)),
{
    s.to_uppercase()
}

/// `text` in upper case.
pub fn uppercase_preview(text: &str) -> (u: String)
    ensures
        u@ == uppered(text@),
{
    str_to_uppercase(text)
}

/// Whether a character is alphanumeric (std's `char::is_alphanumeric`).
pub uninterp spec fn alphanumeric(c: char) -> bool;

/// The ASCII letters and digits.
pub open spec fn ascii_alphanumeric(c: char) -> bool {
    ('0' <= c && c <= '9') || ('a' <= c && c <= 'z') || ('A' <= c && c <= 'Z')
}

/// Trusted: calls `char::is_alphanumeric` (Unicode `Alphabetic` or
/// `Numeric`), whose tables are named `alphanumeric`. Of an ASCII character
/// it states what std documents of the ASCII range: exactly the letters and
/// digits are alphanumeric (as `is_ascii_alphanumeric` says).
#[verifier::external_body]
fn char_is_alphanumeric(c: char) -> (b: bool)
    ensures
        b == alphanumeric(c),
        is_ascii(c) ==> b == ascii_alphanumeric(c),
{
    c.is_alphanumeric()
}

/// A character that can be part of a word: alphanumeric or `_` (for an
/// ASCII character, a letter, a digit or `_`).
pub open spec fn is_word_char(c: char) -> bool {
    (if is_ascii(c) {
        ascii_alphanumeric(c)
    } else {
        alphanumeric(c)
    }) || c == '_'
}

/// `from` occurs in `s` at position `p`.
pub open spec fn occurs_at(s: Seq<char>, from: Seq<char>, p: int) -> bool {
    0 <= p && p + from.len() <= s.len() && s.subrange(p, p + from.len()) == from
}

/// The occurrence of `from` at `p` stands as a whole word: no word
/// character right before it or right after it.
pub open spec fn whole_word_at(s: Seq<char>, from: Seq<char>, p: int) -> bool {
    &&& occurs_at(s, from, p)
    &&& (p == 0 || !is_word_char(s[p - 1]))
    &&& (p + from.len() >= s.len() || !is_word_char(s[p + from.len()]))
}

/// The text from position `p` on, scanning left to right: each whole-word
/// occurrence of a non-empty `from` becomes `to`, everything else is copied.
pub open spec fn replace_from(s: Seq<char>, from: Seq<char>, to: Seq<char>, p: int) -> Seq<char>
    decreases s.len() - p,
{
    if p < 0 || p >= s.len() {
        Seq::empty()
    } else if from.len() > 0 && whole_word_at(s, from, p) {
        to + replace_from(s, from, to, p + from.len())
    } else {
        seq![s[p]] + replace_from(s, from, to, p + 1)
    }
}

/// All whole-word occurrences of `from` in `s` replaced by `to`.
pub open spec fn replace_whole_words(s: Seq<char>, from: Seq<char>, to: Seq<char>) -> Seq<char> {
    if from.len() == 0 {
        s
    } else {
        replace_from(s, from, to, 0)
    }
}

fn occurs_at_exec(s: &Vec<char>, from: &Vec<char>, p: usize) -> (b: bool)
    requires
        p <= s.len(),
    ensures
        b == occurs_at(s@, from@, p as int),
{
    if from.len() > s.len() - p {
        return false;
    }
    let mut k: usize = 0;
    while k < from.len()
        invariant
            p + from.len() <= s.len(),
            k <= from.len(),
            forall|j: int| 0 <= j < k ==> s@[p + j] == from@[j],
        decreases from.len() - k,
    {
        if s[p + k] != from[k] {
            assert(s@.subrange(p as int, p + from.len())[k as int] != from@[k as int]);
            return false;
        }
        k = k + 1;
    }
    assert(s@.subrange(p as int, p + from.len()) =~= from@);
    true
}

/// ASCII letters, digits and `_` are exactly the ASCII word characters.
pub proof fn law_ascii_word_chars(c: char)
    requires
        is_ascii(c),
    ensures
        is_word_char(c) <==> ('0' <= c <= '9' || 'a' <= c <= 'z' || 'A' <= c <= 'Z' || c == '_'),
{
}

proof fn lemma_constant_word(f: Seq<char>, d: char, i: int)
    requires
        f.len() > 0,
        f[f.len() - 1] == d,
        forall|j: int| 0 <= j < f.len() - 1 ==> f[j] == #[trigger] f[j + 1],
        0 <= i < f.len(),
    ensures
        f[i] == d,
    decreases f.len() - i,
{
    if i < f.len() - 1 {
        lemma_constant_word(f, d, i + 1);
        assert(f[i] == f[i + 1]);
    }
}

/// An occurrence directly followed by a digit is part of a longer word and
/// is left alone.
pub proof fn law_occurrence_before_digit_stays(from: Seq<char>, to: Seq<char>, d: char)
    requires
        '0' <= d <= '9',
    ensures
        replace_whole_words(from + seq![d], from, to) == from + seq![d],
{
    if from.len() > 0 {
        let s = from + seq![d];
        let n = from.len() as int;
        assert(is_ascii(d));
        assert(is_word_char(d));
        assert(s[n] == d);
        assert forall|j: int| 0 <= j < n + 1 implies !(from.len() > 0 && whole_word_at(s, from, j)) by {
            if j == 1 && whole_word_at(s, from, j) {
                assert forall|k: int| 0 <= k < n - 1 implies from[k] == #[trigger] from[k + 1] by {
                    assert(s.subrange(1, n + 1)[k] == from[k]);
                    assert(s[k + 1] == from[k + 1]);
                }
                assert(s.subrange(1, n + 1)[n - 1] == from[n - 1]);
                lemma_constant_word(from, d, 0);
                assert(s[0] == from[0]);
            }
        }
        lemma_replace_copies(s, from, to, 0, n + 1);
        assert(s.subrange(0, n + 1) =~= s);
        assert(replace_from(s, from, to, n + 1) == Seq::<char>::empty());
        assert(s + Seq::<char>::empty() =~= s);
    }
}

/// Replaces every occurrence of `from` that forms a whole word (not part of
/// a longer word) with `to`. An empty `from` leaves `text` unchanged.
pub fn replace_word(text: &mut String, from: &str, to: &str)
    ensures
        final(text)@ == replace_whole_words(old(text)@, from@, to@),
{
    if from.is_empty() {
        return;
    }
    let s = chars_of(text.as_str());
    let f = chars_of(from);
    let t = chars_of(to);
    let ghost s0 = s@;
    let mut out: Vec<char> = Vec::new();
    let mut i: usize = 0;
    while i < s.len()
        invariant
            s@ == s0,
            f@ == from@,
            t@ == to@,
            f@.len() > 0,
            i <= s.len(),
            out@ + replace_from(s0, f@, t@, i as int) == replace_from(s0, f@, t@, 0),
        decreases s.len() - i,
    {
        let hit = occurs_at_exec(&s, &f, i)
            && (i == 0 || !(char_is_alphanumeric(s[i - 1]) || s[i - 1] == '_'))
            && (i + f.len() >= s.len() || !(char_is_alphanumeric(s[i + f.len()]) || s[i + f.len()] == '_'));
        let ghost before = out@;
        if hit {
            assert(whole_word_at(s0, f@, i as int));
            let mut k: usize = 0;
            while k < t.len()
                invariant
                    k <= t.len(),
                    out@ == before + t@.take(k as int),
                decreases t.len() - k,
            {
                out.push(t[k]);
                assert(t@.take(k as int + 1) =~= t@.take(k as int).push(t@[k as int]));
                k = k + 1;
            }
            assert(t@.take(t.len() as int) =~= t@);
            assert(before + replace_from(s0, f@, t@, i as int) =~= out@ + replace_from(
                s0,
                f@,
                t@,
                i + f.len(),
            ));
            i = i + f.len();
        } else {
            assert(!whole_word_at(s0, f@, i as int));
            out.push(s[i]);
            assert(before + replace_from(s0, f@, t@, i as int) =~= out@ + replace_from(
                s0,
                f@,
                t@,
                i + 1,
            ));
            i = i + 1;
        }
    }
    assert(out@ =~= out@ + replace_from(s0, f@, t@, i as int));
    *text = string_of(&out);
}

proof fn lemma_replace_from_identity(s: Seq<char>, from: Seq<char>, to: Seq<char>, p: int)
    requires
        0 <= p <= s.len(),
        from == to || forall|q: int| p <= q ==> !occurs_at(s, from, q),
    ensures
        replace_from(s, from, to, p) == s.skip(p),
    decreases s.len() - p,
{
    if p == s.len() {
        assert(s.skip(p) =~= Seq::<char>::empty());
    } else if from.len() > 0 && whole_word_at(s, from, p) {
        lemma_replace_from_identity(s, from, to, p + from.len());
        assert(s.skip(p) =~= s.subrange(p, p + from.len()) + s.skip(p + from.len()));
    } else {
        lemma_replace_from_identity(s, from, to, p + 1);
        assert(s.skip(p) =~= seq![s[p]] + s.skip(p + 1));
    }
}

/// Replacing leaves the text unchanged when the word is empty, equals its
/// replacement, or does not occur in the text.
pub proof fn law_replace_without_effect(t: Seq<char>, from: Seq<char>, to: Seq<char>)
    requires
        from.len() == 0 || from == to || forall|q: int| !occurs_at(t, from, q),
    ensures
        replace_whole_words(t, from, to) == t,
{
    if from.len() > 0 {
        lemma_replace_from_identity(t, from, to, 0);
        assert(t.skip(0) =~= t);
    }
}

/// Every character of `w` can be part of a word.
pub open spec fn all_word_chars(w: Seq<char>) -> bool {
    forall|i: int| 0 <= i < w.len() ==> is_word_char(#[trigger] w[i])
}

proof fn lemma_replace_copies(t: Seq<char>, f: Seq<char>, to: Seq<char>, q: int, m: int)
    requires
        0 <= q,
        0 <= m,
        q + m <= t.len(),
        forall|j: int| q <= j < q + m ==> !(f.len() > 0 && whole_word_at(t, f, j)),
    ensures
        replace_from(t, f, to, q) == t.subrange(q, q + m) + replace_from(t, f, to, q + m),
    decreases m,
{
    if m > 0 {
        lemma_replace_copies(t, f, to, q + 1, m - 1);
        assert(t.subrange(q, q + m) =~= seq![t[q]] + t.subrange(q + 1, q + m));
    } else {
        assert(t.subrange(q, q) =~= Seq::<char>::empty());
    }
}

proof fn lemma_first_whole(t: Seq<char>, f: Seq<char>, lo: int, hi: int) -> (j: int)
    requires
        exists|j: int| lo <= j < hi && whole_word_at(t, f, j),
    ensures
        lo <= j < hi,
        whole_word_at(t, f, j),
        forall|i: int| lo <= i < j ==> !whole_word_at(t, f, i),
    decreases hi - lo,
{
    if whole_word_at(t, f, lo) {
        lo
    } else {
        let w = choose|j: int| lo <= j < hi && whole_word_at(t, f, j);
        assert(w != lo);
        lemma_first_whole(t, f, lo + 1, hi)
    }
}

/// Scanning back from position `p` of the first replacement, after an
/// output prefix `a` whose last character is a word character exactly when
/// the text's character before `p` is, restores the rest of the text.
proof fn lemma_replace_back(t: Seq<char>, f: Seq<char>, to: Seq<char>, p: int, a: Seq<char>)
    requires
        f.len() > 0,
        to.len() > 0,
        all_word_chars(f),
        all_word_chars(to),
        forall|q: int| !occurs_at(t, to, q),
        0 <= p <= t.len(),
        p == 0 ==> a.len() == 0,
        p > 0 ==> a.len() > 0 && (is_word_char(a.last()) == is_word_char(t[p - 1])),
    ensures
        replace_from(a + replace_from(t, f, to, p), to, f, a.len() as int) == t.skip(p),
    decreases t.len() - p,
{
    let v = replace_from(t, f, to, p);
    let x = a + v;
    let k = a.len() as int;
    if p == t.len() {
        assert(x =~= a);
        assert(t.skip(p) =~= Seq::<char>::empty());
    } else if whole_word_at(t, f, p) {
        let p2 = p + f.len();
        let v2 = replace_from(t, f, to, p2);
        let a2 = a + to;
        assert(x =~= a2 + v2);
        assert(x.subrange(k, k + to.len()) =~= to);
        assert(is_word_char(f[0]));
        assert(is_word_char(to[0]));
        if p2 < t.len() {
            assert(!is_word_char(t[p2]));
            if whole_word_at(t, f, p2) {
                assert(t.subrange(p2, p2 + f.len())[0] == t[p2]);
            }
            assert(v2 == seq![t[p2]] + replace_from(t, f, to, p2 + 1));
            assert(x[k + to.len()] == t[p2]);
        } else {
            assert(x.len() == k + to.len());
        }
        assert(whole_word_at(x, to, k));
        assert(a2.last() == to[to.len() - 1]);
        assert(t[p2 - 1] == t.subrange(p, p2)[f.len() - 1]);
        assert(is_word_char(to[to.len() - 1]));
        assert(is_word_char(f[f.len() - 1]));
        lemma_replace_back(t, f, to, p2, a2);
        assert(t.skip(p) =~= f + t.skip(p2)) by {
            assert(t.skip(p) =~= t.subrange(p, p2) + t.skip(p2));
        }
    } else {
        let v1 = replace_from(t, f, to, p + 1);
        let a1 = a + seq![t[p]];
        assert(v == seq![t[p]] + v1);
        assert(x =~= a1 + v1);
        assert(x[k] == t[p]);
        if whole_word_at(x, to, k) {
            assert(x.subrange(k, k + to.len())[0] == to[0]);
            assert(is_word_char(to[0]));
            let hi = if p + to.len() < t.len() {
                p + to.len()
            } else {
                t.len() as int
            };
            if exists|j: int| p + 1 <= j < hi && whole_word_at(t, f, j) {
                let j = lemma_first_whole(t, f, p + 1, hi);
                lemma_replace_copies(t, f, to, p + 1, j - p - 1);
                assert(!is_word_char(t[j - 1]));
                if j - 1 == p {
                } else {
                    let i = j - 1 - p;
                    assert(v1[i - 1] == t[j - 1]);
                    assert(x[k + i] == v1[i - 1]);
                    assert(x.subrange(k, k + to.len())[i] == to[i]);
                    assert(is_word_char(to[i]));
                }
            } else {
                lemma_replace_copies(t, f, to, p + 1, hi - p - 1);
                if p + to.len() <= t.len() {
                    assert(t.subrange(p, p + to.len()) =~= x.subrange(k, k + to.len())) by {
                        assert forall|i: int| 0 <= i < to.len() implies #[trigger] t.subrange(
                            p,
                            p + to.len(),
                        )[i] == x.subrange(k, k + to.len())[i] by {
                            if i > 0 {
                                assert(v1[i - 1] == t[p + i]);
                            }
                        }
                    }
                    assert(occurs_at(t, to, p));
                } else {
                    assert(replace_from(t, f, to, t.len() as int) == Seq::<char>::empty());
                    assert(v1.len() == t.len() - p - 1);
                }
            }
        }
        lemma_replace_back(t, f, to, p + 1, a1);
        assert(t.skip(p) =~= seq![t[p]] + t.skip(p + 1));
    }
}

/// Replacing a word and then replacing the replacement back restores the
/// text, when both are non-empty words (every character alphanumeric or
/// `_`) and the replacement does not occur in the text.
pub proof fn law_replace_back_restores(t: Seq<char>, from: Seq<char>, to: Seq<char>)
    requires
        from.len() > 0,
        to.len() > 0,
        all_word_chars(from),
        all_word_chars(to),
        forall|q: int| !occurs_at(t, to, q),
    ensures
        replace_whole_words(replace_whole_words(t, from, to), to, from) == t,
{
    lemma_replace_back(t, from, to, 0, Seq::<char>::empty());
    assert(Seq::<char>::empty() + replace_from(t, from, to, 0) =~= replace_from(t, from, to, 0));
    assert(t.skip(0) =~= t);
}

/// The entries of the editor's menu.
pub enum MenuChoice {
    ShowLength,
    WordCount,
    AppendSuffix,
    UppercasePreview,
    Exit,
    Invalid,
}

/// The entry a typed choice names: `1` to `5` after trimming, anything else
/// is invalid.
pub open spec fn menu_of(choice: Seq<char>) -> MenuChoice {
    let t = trim(choice);
    if t == "1"@ {
        MenuChoice::ShowLength
    } else if t == "2"@ {
        MenuChoice::WordCount
    } else if t == "3"@ {
        MenuChoice::AppendSuffix
    } else if t == "4"@ {
        MenuChoice::UppercasePreview
    } else if t == "5"@ {
        MenuChoice::Exit
    } else {
        MenuChoice::Invalid
    }
}

/// Reads a menu entry from a typed line.
pub fn menu_choice(choice: &str) -> (m: MenuChoice)
    ensures
        m == menu_of(choice@),
{
    let t = trim_str(choice);
    if same_text(t, "1") {
        MenuChoice::ShowLength
    } else if same_text(t, "2") {
        MenuChoice::WordCount
    } else if same_text(t, "3") {
        MenuChoice::AppendSuffix
    } else if same_text(t, "4") {
        MenuChoice::UppercasePreview
    } else if same_text(t, "5") {
        MenuChoice::Exit
    } else {
        MenuChoice::Invalid
    }
}

} // verus!
