//! Character-level text primitives shared by the rest of the library:
//! whitespace, words, trimming, decimal rendering and integer parsing.

use vstd::prelude::*;

verus! {

broadcast use vstd::string::group_string_axioms;

// ---------------------------------------------------------------------------
// Whitespace and words
// ---------------------------------------------------------------------------

/// Unicode `White_Space` code points.
pub open spec fn is_ws(c: char) -> bool {
    ||| ('\u{9}' <= c && c <= '\u{d}')
    ||| c == ' '
    ||| c == '\u{85}'
    ||| c == '\u{a0}'
    ||| c == '\u{1680}'
    ||| ('\u{2000}' <= c && c <= '\u{200a}')
    ||| c == '\u{2028}'
    ||| c == '\u{2029}'
    ||| c == '\u{202f}'
    ||| c == '\u{205f}'
    ||| c == '\u{3000}'
}

/// Punctuation that normalisation turns into spaces.
pub open spec fn is_punct(c: char) -> bool {
    c == '.' || c == ',' || c == '!' || c == '?' || c == ';' || c == ':'
}

/// The maximal runs of non-whitespace characters of `s`, left to right.
pub open spec fn words(s: Seq<char>) -> Seq<Seq<char>>
    decreases s.len(),
{
    if s.len() == 0 {
        Seq::empty()
    } else {
        let prev = words(s.drop_last());
        let c = s.last();
        if is_ws(c) {
            prev
        } else if s.len() >= 2 && !is_ws(s[s.len() - 2]) {
            prev.update(prev.len() - 1, prev.last().push(c))
        } else {
            prev.push(seq![c])
        }
    }
}

/// `s` with leading whitespace removed.
pub open spec fn trim_start(s: Seq<char>) -> Seq<char>
    decreases s.len(),
{
    if s.len() > 0 && is_ws(s[0]) {
        trim_start(s.drop_first())
    } else {
        s
    }
}

/// `s` with trailing whitespace removed.
pub open spec fn trim_end(s: Seq<char>) -> Seq<char>
    decreases s.len(),
{
    if s.len() > 0 && is_ws(s.last()) {
        trim_end(s.drop_last())
    } else {
        s
    }
}

/// `s` with leading and trailing whitespace removed.
pub open spec fn trim(s: Seq<char>) -> Seq<char> {
    trim_end(trim_start(s))
}

/// A sequence made of whitespace only (or empty) has no words, and
/// every word is non-empty and free of whitespace.
pub proof fn lemma_words_shape(s: Seq<char>)
    ensures
        words(s).len() <= s.len(),
        forall|i: int| 0 <= i < words(s).len() ==> #[trigger] words(s)[i].len() > 0,
        forall|i: int, j: int|
            0 <= i < words(s).len() && 0 <= j < words(s)[i].len() ==> !is_ws(
                #[trigger] words(s)[i][j],
            ),
        s.len() > 0 && !is_ws(s.last()) ==> words(s).len() > 0,
    decreases s.len(),
{
    if s.len() > 0 {
        lemma_words_shape(s.drop_last());
        let prev = words(s.drop_last());
        let c = s.last();
        if !is_ws(c) && s.len() >= 2 && !is_ws(s[s.len() - 2]) {
            assert(s.drop_last().last() == s[s.len() - 2]);
            assert forall|i: int, j: int|
                0 <= i < words(s).len() && 0 <= j < words(s)[i].len() implies !is_ws(
                #[trigger] words(s)[i][j],
            ) by {
                if i == prev.len() - 1 {
                    if j < prev.last().len() {
                        assert(words(s)[i][j] == prev[i][j]);
                    }
                } else {
                    assert(words(s)[i] == prev[i]);
                }
            }
        }
    }
}

/// Whitespace at the ends does not change the words.
pub proof fn lemma_trim_keeps_words(s: Seq<char>)
    ensures
        words(trim(s)) == words(s),
        trim(s).len() == 0 <==> (forall|i: int| 0 <= i < s.len() ==> is_ws(#[trigger] s[i])),
{
    lemma_trim_start_words(s);
    lemma_trim_end_words(trim_start(s));
    lemma_trim_start_all_ws(s);
    lemma_trim_end_empty(trim_start(s));
    if trim_start(s).len() > 0 {
        assert(!is_ws(trim_start(s)[0]));
    }
}

proof fn lemma_trim_end_empty(s: Seq<char>)
    ensures
        trim_end(s).len() == 0 <==> (forall|i: int| 0 <= i < s.len() ==> is_ws(#[trigger] s[i])),
    decreases s.len(),
{
    if s.len() > 0 {
        if is_ws(s.last()) {
            lemma_trim_end_empty(s.drop_last());
            if forall|i: int| 0 <= i < s.drop_last().len() ==> is_ws(#[trigger] s.drop_last()[i]) {
                assert forall|i: int| 0 <= i < s.len() implies is_ws(#[trigger] s[i]) by {
                    if i < s.len() - 1 {
                        assert(s[i] == s.drop_last()[i]);
                    }
                }
            } else {
                let k = choose|i: int| 0 <= i < s.drop_last().len() && !is_ws(#[trigger] s.drop_last()[i]);
                assert(s[k] == s.drop_last()[k]);
            }
        } else {
            assert(!is_ws(s[s.len() - 1]));
        }
    }
}

proof fn lemma_trim_start_all_ws(s: Seq<char>)
    ensures
        trim_start(s).len() == 0 <==> (forall|i: int| 0 <= i < s.len() ==> is_ws(#[trigger] s[i])),
        trim_start(s).len() > 0 ==> !is_ws(trim_start(s)[0]),
    decreases s.len(),
{
    if s.len() > 0 && is_ws(s[0]) {
        lemma_trim_start_all_ws(s.drop_first());
        if forall|i: int| 0 <= i < s.drop_first().len() ==> is_ws(#[trigger] s.drop_first()[i]) {
            assert forall|i: int| 0 <= i < s.len() implies is_ws(#[trigger] s[i]) by {
                if i > 0 {
                    assert(s[i] == s.drop_first()[i - 1]);
                }
            }
        } else {
            let k = choose|i: int| 0 <= i < s.drop_first().len() && !is_ws(#[trigger] s.drop_first()[i]);
            assert(s[k + 1] == s.drop_first()[k]);
        }
    } else if s.len() > 0 {
        assert(!is_ws(s[0]));
    }
}

proof fn lemma_trim_end_prefix(s: Seq<char>)
    ensures
        trim_end(s).len() <= s.len(),
        trim_end(s) == s.take(trim_end(s).len() as int),
        trim_end(s).len() > 0 ==> !is_ws(trim_end(s).last()),
    decreases s.len(),
{
    if s.len() > 0 && is_ws(s.last()) {
        lemma_trim_end_prefix(s.drop_last());
        assert(s.drop_last().take(trim_end(s).len() as int) =~= s.take(trim_end(s).len() as int));
    } else {
        assert(s.take(s.len() as int) =~= s);
    }
}

/// Trimming an already trimmed text changes nothing.
pub proof fn lemma_trim_idempotent(s: Seq<char>)
    ensures
        trim(trim(s)) == trim(s),
{
    let ts = trim_start(s);
    let t = trim_end(ts);
    lemma_trim_start_all_ws(s);
    lemma_trim_end_prefix(ts);
    if t.len() > 0 {
        assert(t[0] == ts[0]);
        assert(trim_start(t) == t);
        assert(trim_end(t) == t);
    } else {
        assert(trim_start(t) == t);
        assert(trim_end(t) == t);
    }
}

/// A text without whitespace at either end is its own trim, also when one
/// space is added on each side.
pub proof fn lemma_trim_padded(t: Seq<char>)
    requires
        t.len() > 0,
        !is_ws(t[0]),
        !is_ws(t.last()),
    ensures
        trim(t) == t,
        trim(seq![' '] + t + seq![' ']) == t,
{
    let p = seq![' '] + t + seq![' '];
    assert(p.drop_first() =~= t + seq![' ']);
    assert((t + seq![' '])[0] == t[0]);
    assert(trim_start(t + seq![' ']) == t + seq![' ']);
    assert(trim_start(p) == t + seq![' ']);
    assert((t + seq![' ']).drop_last() =~= t);
    assert(trim_end(t + seq![' ']) == trim_end(t));
}

/// After a text that is empty or ends in whitespace, the words of what
/// follows are simply appended.
pub proof fn lemma_words_after_ws(s: Seq<char>, t: Seq<char>)
    requires
        s.len() == 0 || is_ws(s.last()),
    ensures
        words(s + t) == words(s) + words(t),
    decreases t.len(),
{
    if t.len() == 0 {
        assert(s + t =~= s);
        assert(words(s) + words(t) =~= words(s));
    } else {
        let tp = t.drop_last();
        let c = t.last();
        lemma_words_after_ws(s, tp);
        let st = s + t;
        assert(st.drop_last() =~= s + tp);
        assert(st.last() == c);
        let prev = words(s + tp);
        if is_ws(c) {
            assert(words(st) == prev);
            assert(words(t) == words(tp));
        } else if st.len() >= 2 && !is_ws(st[st.len() - 2]) {
            // `c` extends the last word, which lies inside `t`.
            if t.len() >= 2 {
                assert(st[st.len() - 2] == t[t.len() - 2]);
                assert(tp.last() == t[t.len() - 2]);
                lemma_words_shape(tp);
                assert(words(t) == words(tp).update(words(tp).len() - 1, words(tp).last().push(c)));
                assert(words(st) =~= words(s) + words(t));
            } else {
                assert(st[st.len() - 2] == s.last());
            }
        } else {
            if t.len() >= 2 {
                assert(st[st.len() - 2] == t[t.len() - 2]);
                assert(words(t) == words(tp).push(seq![c]));
            } else {
                assert(tp.len() == 0);
                assert(words(tp) == Seq::<Seq<char>>::empty());
                assert(words(t) == words(tp).push(seq![c]));
            }
            assert(words(st) =~= words(s) + words(t));
        }
    }
}

/// A text has no words exactly when it is blank.
pub proof fn lemma_no_words_iff_blank(s: Seq<char>)
    ensures
        words(s).len() == 0 <==> trim(s).len() == 0,
    decreases s.len(),
{
    lemma_trim_keeps_words(s);
    if s.len() > 0 {
        lemma_no_words_iff_blank(s.drop_last());
        lemma_trim_keeps_words(s.drop_last());
        lemma_words_shape(s);
        if is_ws(s.last()) {
            if forall|i: int| 0 <= i < s.drop_last().len() ==> is_ws(#[trigger] s.drop_last()[i]) {
                assert forall|i: int| 0 <= i < s.len() implies is_ws(#[trigger] s[i]) by {
                    if i < s.len() - 1 {
                        assert(s[i] == s.drop_last()[i]);
                    }
                }
            } else {
                let k = choose|i: int| 0 <= i < s.drop_last().len() && !is_ws(#[trigger] s.drop_last()[i]);
                assert(s[k] == s.drop_last()[k]);
            }
        } else {
            assert(!is_ws(s[s.len() - 1]));
        }
    }
}

proof fn lemma_trim_end_words(s: Seq<char>)
    ensures
        words(trim_end(s)) == words(s),
    decreases s.len(),
{
    if s.len() > 0 && is_ws(s.last()) {
        lemma_trim_end_words(s.drop_last());
    }
}

/// Words of `seq![c] + t` when `c` is whitespace.
proof fn lemma_words_prepend_ws(c: char, t: Seq<char>)
    requires
        is_ws(c),
    ensures
        words(seq![c] + t) == words(t),
    decreases t.len(),
{
    let s = seq![c] + t;
    if t.len() == 0 {
        assert(s.drop_last() =~= Seq::<char>::empty());
        assert(s.last() == c);
        assert(words(s) == words(s.drop_last()));
        assert(words(Seq::<char>::empty()) == Seq::<Seq<char>>::empty());
    } else {
        assert(s.drop_last() =~= seq![c] + t.drop_last());
        lemma_words_prepend_ws(c, t.drop_last());
        assert(words(s.drop_last()) == words(t.drop_last()));
        assert(s.last() == t.last());
        if t.len() >= 2 {
            assert(s[s.len() - 2] == t[t.len() - 2]);
        } else {
            assert(s[s.len() - 2] == c);
        }
    }
}

proof fn lemma_trim_start_words(s: Seq<char>)
    ensures
        words(trim_start(s)) == words(s),
    decreases s.len(),
{
    if s.len() > 0 && is_ws(s[0]) {
        lemma_trim_start_words(s.drop_first());
        assert(s =~= seq![s[0]] + s.drop_first());
        lemma_words_prepend_ws(s[0], s.drop_first());
    }
}

/// Tests whether `c` is Unicode whitespace (what `char::is_whitespace`
/// answers: the `White_Space` property, the set that `is_ws` lists).
pub(crate) fn is_whitespace_char(c: char) -> (b: bool)
    ensures
        b == is_ws(c),
{
    ('\u{9}' <= c && c <= '\u{d}') || c == ' ' || c == '\u{85}' || c == '\u{a0}' || c == '\u{1680}'
        || ('\u{2000}' <= c && c <= '\u{200a}') || c == '\u{2028}' || c == '\u{2029}' || c
        == '\u{202f}' || c == '\u{205f}' || c == '\u{3000}'
}

/// Number of words of `cs` (what `split_whitespace().count()` gives).
pub fn count_words(cs: &Vec<char>) -> (n: usize)
    ensures
        n == words(cs@).len(),
{
    let mut n: usize = 0;
    let mut i: usize = 0;
    while i < cs.len()
        invariant
            i <= cs.len(),
            n == words(cs@.take(i as int)).len(),
        decreases cs.len() - i,
    {
        proof {
            lemma_words_shape(cs@.take(i as int));
            assert(cs@.take(i as int + 1).drop_last() =~= cs@.take(i as int));
            if i >= 1 {
                assert(cs@.take(i as int + 1)[i - 1] == cs@[i - 1]);
            }
        }
        let c = cs[i];
        if !is_whitespace_char(c) && (i == 0 || is_whitespace_char(cs[i - 1])) {
            n = n + 1;
        }
        i = i + 1;
    }
    assert(cs@.take(cs.len() as int) =~= cs@);
    n
}

/// The words of `cs`, each as its characters.
pub fn split_words(cs: &Vec<char>) -> (ws: Vec<Vec<char>>)
    ensures
        views(ws@) == words(cs@),
{
    let mut ws: Vec<Vec<char>> = Vec::new();
    let mut i: usize = 0;
    while i < cs.len()
        invariant
            i <= cs.len(),
            views(ws@) == words(cs@.take(i as int)),
        decreases cs.len() - i,
    {
        proof {
            lemma_words_shape(cs@.take(i as int));
            assert(cs@.take(i as int + 1).drop_last() =~= cs@.take(i as int));
            if i >= 1 {
                assert(cs@.take(i as int + 1)[i - 1] == cs@[i - 1]);
            }
        }
        let c = cs[i];
        let ghost prev = views(ws@);
        if !is_whitespace_char(c) {
            if i > 0 && !is_whitespace_char(cs[i - 1]) {
                proof {
                    assert(cs@.take(i as int)[i - 1] == cs@[i - 1]);
                }
                let mut last = ws.pop().unwrap();
                last.push(c);
                ws.push(last);
                assert(views(ws@) =~= prev.update(prev.len() - 1, prev.last().push(c)));
            } else {
                let mut w: Vec<char> = Vec::new();
                w.push(c);
                ws.push(w);
                assert(w@ =~= seq![c]);
                assert(views(ws@) =~= prev.push(seq![c]));
            }
        }
        i = i + 1;
    }
    assert(cs@.take(cs.len() as int) =~= cs@);
    ws
}

/// The character sequences held by a vector of character vectors.
pub open spec fn views(ws: Seq<Vec<char>>) -> Seq<Seq<char>> {
    ws.map_values(|w: Vec<char>| w@)
}

/// The character sequences held by a vector of strings.
pub open spec fn texts(v: Seq<String>) -> Seq<Seq<char>> {
    v.map_values(|s: String| s@)
}

// ---------------------------------------------------------------------------
// Building and taking apart strings
// ---------------------------------------------------------------------------

/// The characters of `s`, in order.
pub fn chars_of(s: &str) -> (v: Vec<char>)
    ensures
        v@ == s@,
{
    let mut v: Vec<char> = Vec::new();
    for c in it: s.chars()
        invariant
            v@ == it.seq().take(it.index() as int),
            it.seq() == s@,
    {
        v.push(c);
    }
    v
}

/// Appends one character.
///
/// Trusted: calls `String::push`, documented to append the character to the end.
#[verifier::external_body]
pub(crate) fn push_char(s: &mut String, c: char)
    ensures
        final(s)@ == old(s)@.push(c),
{
    s.push(c);
}

/// Appends the characters of `v`.
pub fn push_chars(s: &mut String, v: &Vec<char>)
    ensures
        final(s)@ == old(s)@ + v@,
{
    let ghost start = s@;
    let mut i: usize = 0;
    while i < v.len()
        invariant
            i <= v.len(),
            s@ == start + v@.take(i as int),
        decreases v.len() - i,
    {
        push_char(s, v[i]);
        assert(v@.take(i as int + 1) =~= v@.take(i as int).push(v@[i as int]));
        i = i + 1;
    }
    assert(v@.take(v.len() as int) =~= v@);
}

/// A string holding exactly the characters of `v`.
pub fn string_of(v: &Vec<char>) -> (s: String)
    ensures
        s@ == v@,
{
    let mut s = String::new();
    push_chars(&mut s, v);
    s
}

/// Appends `t` to `s`.
pub fn push_str(s: &mut String, t: &str)
    ensures
        final(s)@ == old(s)@ + t@,
{
    s.append(t);
}

/// `s` with leading and trailing whitespace removed.
///
/// Trusted: calls `str::trim`, documented to remove leading and trailing
/// characters with the Unicode `White_Space` property.
#[verifier::external_body]
pub(crate) fn trim_str(s: &str) -> (t: &str)
    ensures
        t@ == trim(s@),
{
    s.trim()
}

/// `s` with trailing whitespace removed.
///
/// Trusted: calls `str::trim_end`, documented to remove trailing
/// characters with the Unicode `White_Space` property.
#[verifier::external_body]
pub(crate) fn trim_end_str(s: &str) -> (t: &str)
    ensures
        t@ == trim_end(s@),
{
    s.trim_end()
}

/// Whether two strings hold the same characters.
pub fn same_text(a: &str, b: &str) -> (eq: bool)
    ensures
        eq == (a@ == b@),
{
    let x = chars_of(a);
    let y = chars_of(b);
    if x.len() != y.len() {
        return false;
    }
    let mut i: usize = 0;
    while i < x.len()
        invariant
            x@ == a@,
            y@ == b@,
            x.len() == y.len(),
            i <= x.len(),
            forall|j: int| 0 <= j < i ==> x@[j] == y@[j],
        decreases x.len() - i,
    {
        if x[i] != y[i] {
            return false;
        }
        i = i + 1;
    }
    assert(x@ =~= y@);
    true
}

/// Whether two character vectors hold the same characters.
pub fn same_chars(x: &Vec<char>, y: &Vec<char>) -> (eq: bool)
    ensures
        eq == (x@ == y@),
{
    if x.len() != y.len() {
        return false;
    }
    let mut i: usize = 0;
    while i < x.len()
        invariant
            x.len() == y.len(),
            i <= x.len(),
            forall|j: int| 0 <= j < i ==> x@[j] == y@[j],
        decreases x.len() - i,
    {
        if x[i] != y[i] {
            return false;
        }
        i = i + 1;
    }
    assert(x@ =~= y@);
    true
}

/// An ASCII character (code point below 128).
pub open spec fn is_ascii(c: char) -> bool {
    (c as u32) < 128
}

/// Every character of `s` is ASCII.
pub open spec fn is_ascii_text(s: Seq<char>) -> bool {
    forall|i: int| 0 <= i < s.len() ==> is_ascii(#[trigger] s[i])
}

/// `A`-`Z` become `a`-`z`; every other character stays.
pub open spec fn ascii_lower(c: char) -> char {
    if 'A' <= c && c <= 'Z' {
        ((c as u32) + 32) as char
    } else {
        c
    }
}

/// `a`-`z` become `A`-`Z`; every other character stays.
pub open spec fn ascii_upper(c: char) -> char {
    if 'a' <= c && c <= 'z' {
        ((c as u32) - 32) as char
    } else {
        c
    }
}

/// The lower-case mapping of a whole string (std's `str::to_lowercase`).
pub uninterp spec fn lowercase(s: Seq<char>) -> Seq<char>;

/// What `str::to_lowercase` gives: for ASCII text, each `A`-`Z` lowered and
/// everything else kept; otherwise the Unicode mapping `lowercase`.
pub open spec fn lowered(s: Seq<char>) -> Seq<char> {
    if is_ascii_text(s) {
        s.map_values(|c: char| ascii_lower(c))
    } else {
        lowercase(s)
    }
}

/// `s` in lower case.
///
/// Trusted: calls `str::to_lowercase`, whose Unicode mapping (with its
/// final-sigma rule) is named `lowercase`. Of ASCII text it states what std
/// documents of the ASCII range: `A`-`Z` become `a`-`z`, every other
/// character stays (as `to_ascii_lowercase` does).
#[verifier::external_body]
pub(crate) fn to_lowercase_str(s: &str) -> (l: String)
    ensures
        l@ == lowercase(s@),
        is_ascii_text(s@) ==> l@ == s@.map_values(|c: char| ascii_lower(c)),
{
    s.to_lowercase()
}

/// The lower-case mapping of one character (std's `char::to_lowercase`).
pub uninterp spec fn char_lowercase(c: char) -> Seq<char>;

/// What `char::to_lowercase` yields: for an ASCII character, that character
/// lowered by `ascii_lower`; otherwise the Unicode mapping `char_lowercase`.
pub open spec fn char_lowered(c: char) -> Seq<char> {
    if is_ascii(c) {
        seq![ascii_lower(c)]
    } else {
        char_lowercase(c)
    }
}

/// The characters that `c` lower-cases to.
///
/// Trusted: calls `char::to_lowercase` and collects the characters it
/// yields; the Unicode mapping is named `char_lowercase`. Of an ASCII
/// character it states what std documents: exactly one character, `A`-`Z`
/// lowered and every other character kept.
#[verifier::external_body]
pub(crate) fn char_to_lowercase(c: char) -> (l: Vec<char>)
    ensures
        l@ == char_lowercase(c),
        is_ascii(c) ==> l@ == seq![ascii_lower(c)],
{
    c.to_lowercase().collect()
}

} // verus!
