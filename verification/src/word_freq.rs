//! Word frequencies of a text: normalisation, counting with stop words,
//! the top entries, and the command line of the word-frequency tool.

use vstd::prelude::*;
use crate::numbers::{decimal, decimal_chars_u64, parse_usize_spec, parse_usize_text};
use crate::ranking::{distinct_names, entries_view, entry_view, is_top, top_entries, Entry};
use crate::tally::{add_word, is_tally, lemma_occurrences_bound};
use crate::text::{ascii_lower, is_ascii, is_ascii_text, is_punct, trim, trim_str, char_lowered, char_to_lowercase, chars_of, push_chars, push_char, push_str, same_text, split_words, string_of, views, words};

verus! {

broadcast use vstd::string::group_string_axioms;

/// How many entries the tool prints when `--top` is not given.
pub const DEFAULT_TOP_N: usize = 10;

/// Words left out of the counts.
pub const STOP_WORDS: [&'static str; 12] = ["the", "a", "an", "is", "to", "of", "in", "on", "and", "or", "for", "with"];

/// Each punctuation character becomes a space, every other character its
/// lower-case mapping.
pub open spec fn normalized(s: Seq<char>) -> Seq<char>
    decreases s.len(),
{
    if s.len() == 0 {
        Seq::empty()
    } else {
        normalized(s.drop_last()) + if is_punct(s.last()) {
            seq![' ']
        } else {
            char_lowered(s.last())
        }
    }
}

/// Normalising works character by character: the text of two parts joined
/// is the two normalised parts joined.
pub proof fn law_normalize_per_character(a: Seq<char>, b: Seq<char>)
    ensures
        normalized(a + b) == normalized(a) + normalized(b),
    decreases b.len(),
{
    if b.len() == 0 {
        assert(a + b =~= a);
        assert(normalized(a) + normalized(b) =~= normalized(a));
    } else {
        law_normalize_per_character(a, b.drop_last());
        assert((a + b).drop_last() =~= a + b.drop_last());
        assert((a + b).last() == b.last());
    }
}

/// Only the six punctuation characters are blanked: every other character
/// becomes its lower-case mapping, so an ASCII digit is kept as it is.
pub proof fn law_normalize_keeps_non_punctuation(c: char)
    requires
        !is_punct(c),
    ensures
        normalized(seq![c]) == char_lowered(c),
        '0' <= c <= '9' ==> normalized(seq![c]) == seq![c],
{
    let one = seq![c];
    assert(one.len() == 1);
    assert(one.drop_last() =~= Seq::<char>::empty());
    assert(one.last() == c);
    assert(normalized(Seq::<char>::empty()) == Seq::<char>::empty());
    assert(normalized(one) == normalized(one.drop_last()) + char_lowered(c));
    assert(Seq::<char>::empty() + char_lowered(c) =~= char_lowered(c));
    if '0' <= c && c <= '9' {
        assert(is_ascii(c));
        assert(ascii_lower(c) == c);
    }
}

/// ASCII text without punctuation normalises to its ASCII lower-casing, so
/// its words (digit runs included) are kept, only lower-cased.
pub proof fn law_normalize_ascii_text(s: Seq<char>)
    requires
        is_ascii_text(s),
        forall|i: int| 0 <= i < s.len() ==> !is_punct(#[trigger] s[i]),
    ensures
        normalized(s) == s.map_values(|c: char| ascii_lower(c)),
    decreases s.len(),
{
    if s.len() > 0 {
        law_normalize_ascii_text(s.drop_last());
        assert(is_ascii(s[s.len() - 1]));
        assert(!is_punct(s[s.len() - 1]));
        assert(s.map_values(|c: char| ascii_lower(c)) =~= s.drop_last().map_values(
            |c: char| ascii_lower(c),
        ) + seq![ascii_lower(s.last())]);
    } else {
        assert(s.map_values(|c: char| ascii_lower(c)) =~= Seq::<char>::empty());
    }
}

/// Lower-cases `text` and turns `.,!?;:` into spaces.
pub fn normalize(text: &str) -> (out: String)
    ensures
        out@ == normalized(text@),
{
    let cs = chars_of(text);
    let mut out = String::new();
    let mut i: usize = 0;
    while i < cs.len()
        invariant
            cs@ == text@,
            i <= cs.len(),
            out@ == normalized(cs@.take(i as int)),
        decreases cs.len() - i,
    {
        let ch = cs[i];
        assert(cs@.take(i as int + 1).drop_last() =~= cs@.take(i as int));
        if ch == '.' || ch == ',' || ch == '!' || ch == '?' || ch == ';' || ch == ':' {
            push_char(&mut out, ' ');
            assert(out@ =~= normalized(cs@.take(i as int + 1)));
        } else {
            let lower = char_to_lowercase(ch);
            push_chars(&mut out, &lower);
        }
        i = i + 1;
    }
    assert(cs@.take(cs.len() as int) =~= cs@);
    out
}

/// The words of `ws` that are not stop words.
pub open spec fn without_stops(ws: Seq<Seq<char>>, stops: Seq<Seq<char>>) -> Seq<Seq<char>>
    decreases ws.len(),
{
    if ws.len() == 0 {
        Seq::empty()
    } else if stops.contains(ws.last()) {
        without_stops(ws.drop_last(), stops)
    } else {
        without_stops(ws.drop_last(), stops).push(ws.last())
    }
}

/// The text of each stop word.
pub open spec fn stop_views(stops: Seq<&str>) -> Seq<Seq<char>> {
    stops.map_values(|s: &str| s@)
}

proof fn lemma_without_stops_len(ws: Seq<Seq<char>>, stops: Seq<Seq<char>>)
    ensures
        without_stops(ws, stops).len() <= ws.len(),
    decreases ws.len(),
{
    if ws.len() > 0 {
        lemma_without_stops_len(ws.drop_last(), stops);
    }
}

fn is_stop_word(w: &str, stop_words: &[&str]) -> (b: bool)
    ensures
        b == stop_views(stop_words@).contains(w@),
{
    let ghost sv = stop_views(stop_words@);
    let mut i: usize = 0;
    while i < stop_words.len()
        invariant
            sv == stop_views(stop_words@),
            i <= stop_words@.len(),
            forall|j: int| 0 <= j < i ==> sv[j] != w@,
        decreases stop_words@.len() - i,
    {
        if same_text(stop_words[i], w) {
            assert(sv[i as int] == w@);
            return true;
        }
        i = i + 1;
    }
    false
}

/// Counts the words of the normalised `text`, skipping stop words.
pub fn word_counts(text: &str, stop_words: &[&str]) -> (counts: Vec<Entry>)
    ensures
        is_tally(
            entries_view(counts@),
            without_stops(words(normalized(text@)), stop_views(stop_words@)),
        ),
{
    let norm = normalize(text);
    let cs = chars_of(norm.as_str());
    let ws = split_words(&cs);
    let ghost all = words(normalized(text@));
    let ghost stops = stop_views(stop_words@);
    let mut counts: Vec<Entry> = Vec::new();
    let mut i: usize = 0;
    proof {
        crate::text::lemma_words_shape(cs@);
    }
    while i < ws.len()
        invariant
            views(ws@) == all,
            stops == stop_views(stop_words@),
            i <= ws.len(),
            ws.len() <= cs.len(),
            is_tally(entries_view(counts@), without_stops(all.take(i as int), stops)),
        decreases ws.len() - i,
    {
        let w = string_of(&ws[i]);
        let ghost before = without_stops(all.take(i as int), stops);
        assert(all.take(i as int + 1).drop_last() =~= all.take(i as int));
        assert(all.take(i as int + 1).last() == all[i as int]);
        assert(all[i as int] == ws@[i as int]@);
        if !is_stop_word(w.as_str(), stop_words) {
            proof {
                lemma_without_stops_len(all.take(i as int), stops);
            }
            add_word(&mut counts, w, Ghost(before));
        }
        i = i + 1;
    }
    assert(all.take(ws.len() as int) =~= all);
    counts
}

/// The `n` most frequent words, most frequent first, ties in word order.
pub fn top_n(counts: &Vec<Entry>, n: usize) -> (top: Vec<Entry>)
    requires
        distinct_names(entries_view(counts@)),
    ensures
        is_top(entries_view(top@), entries_view(counts@), n as nat),
{
    top_entries(counts, n)
}

/// Options of the word-frequency tool.
pub struct Config {
    pub input: Option<String>,
    pub top_n: usize,
    pub as_json: bool,
    pub bench: bool,
}

/// The options as values: input, top, json, bench.
pub type ConfigView = (Option<Seq<char>>, nat, bool, bool);

pub open spec fn config_view(c: Config) -> ConfigView {
    (
        match c.input {
            Some(p) => Some(p@),
            None => None,
        },
        c.top_n as nat,
        c.as_json,
        c.bench,
    )
}

/// Reads the arguments from position `i` on, with the options so far in `acc`.
pub open spec fn read_args(args: Seq<Seq<char>>, i: int, acc: ConfigView) -> Result<ConfigView, Seq<char>>
    decreases args.len() - i,
{
    if i < 0 || i >= args.len() {
        Ok(acc)
    } else {
        let a = args[i];
        if a == "--top"@ {
            if i + 1 >= args.len() {
                Err("missing value for --top"@)
            } else {
                match parse_usize_spec(args[i + 1]) {
                    Some(n) => read_args(args, i + 2, (acc.0, n as nat, acc.2, acc.3)),
                    None => Err("--top must be a positive number"@),
                }
            }
        } else if a == "--json"@ {
            read_args(args, i + 1, (acc.0, acc.1, true, acc.3))
        } else if a == "--bench"@ {
            read_args(args, i + 1, (acc.0, acc.1, acc.2, true))
        } else if a.len() >= 2 && a[0] == '-' && a[1] == '-' {
            Err("unknown flag: "@ + a)
        } else if acc.0 is Some {
            Err("only one input source is supported (FILE or -)"@)
        } else {
            read_args(args, i + 1, (Some(a), acc.1, acc.2, acc.3))
        }
    }
}

/// The text of each argument.
pub open spec fn arg_views(args: Seq<String>) -> Seq<Seq<char>> {
    args.map_values(|a: String| a@)
}

/// Reads the command line; `args[0]` is the program name. `FILE` (or `-`)
/// names the input, `--top N` the number of entries, `--json` and `--bench`
/// switch output modes.
pub fn parse_args(args: &[String]) -> (r: Result<Config, String>)
    ensures
        match (r, read_args(arg_views(args@), 1, (None, DEFAULT_TOP_N as nat, false, false))) {
            (Ok(c), Ok(v)) => config_view(c) == v,
            (Err(e), Err(m)) => e@ == m,
            _ => false,
        },
{
    let ghost av = arg_views(args@);
    let ghost goal = read_args(av, 1, (None, DEFAULT_TOP_N as nat, false, false));
    let mut input: Option<String> = None;
    let mut top_n: usize = DEFAULT_TOP_N;
    let mut as_json = false;
    let mut bench = false;
    let mut i: usize = 1;
    while i < args.len()
        invariant
            av == arg_views(args@),
            goal == read_args(av, 1, (None, DEFAULT_TOP_N as nat, false, false)),
            1 <= i,
            i <= args@.len() || args@.len() == 0,
            goal == read_args(
                av,
                i as int,
                (
                    match input {
                        Some(p) => Some(p@),
                        None => None,
                    },
                    top_n as nat,
                    as_json,
                    bench,
                ),
            ),
        decreases args@.len() - i,
    {
        let a = args[i].as_str();
        assert(av[i as int] == a@);
        if same_text(a, "--top") {
            i = i + 1;
            if i >= args.len() {
                return Err("missing value for --top".to_owned());
            }
            assert(av[i as int] == args@[i as int]@);
            match parse_usize_text(args[i].as_str()) {
                Some(n) => top_n = n,
                None => return Err("--top must be a positive number".to_owned()),
            }
        } else if same_text(a, "--json") {
            as_json = true;
        } else if same_text(a, "--bench") {
            bench = true;
        } else {
            let cs = chars_of(a);
            if cs.len() >= 2 && cs[0] == '-' && cs[1] == '-' {
                let mut msg = "unknown flag: ".to_owned();
                push_str(&mut msg, a);
                return Err(msg);
            }
            if input.is_some() {
                return Err("only one input source is supported (FILE or -)".to_owned());
            }
            input = Some(a.to_owned());
        }
        i = i + 1;
    }
    Ok(Config { input, top_n, as_json, bench })
}

#[verifier::external_type_specification]
#[verifier::external_body]
pub struct ExJsonError(serde_json::Error);

/// The pretty-printed JSON of a list of word counts, each entry a
/// two-element array of the word and its count.
pub uninterp spec fn pretty_json(entries: Seq<(Seq<char>, nat)>) -> Seq<char>;

/// Trusted: calls `serde_json::to_string_pretty` on the entries. Its output
/// for given entries is always the same text, named `pretty_json`. It
/// succeeds: its documentation names as the only failures a `Serialize` impl
/// that fails and a map with non-string keys, and a list of string and
/// integer pairs has neither.
#[verifier::external_body]
fn entries_pretty_json(entries: &Vec<Entry>) -> (r: Result<String, serde_json::Error>)
    ensures
        r is Ok,
        r matches Ok(s) ==> s@ == pretty_json(entries_view(entries@)),
{
    serde_json::to_string_pretty(entries)
}

/// The plain report: one `count<TAB>word` line per entry, in order.
pub open spec fn text_report(entries: Seq<(Seq<char>, nat)>) -> Seq<char>
    decreases entries.len(),
{
    if entries.len() == 0 {
        Seq::empty()
    } else {
        let e = entries.last();
        text_report(entries.drop_last()) + decimal(e.1 as int) + seq!['\t'] + e.0 + seq!['\n']
    }
}

/// The report of the most frequent words: pretty JSON when `as_json`, else
/// one `count<TAB>word` line per entry.
pub fn render_top(top: &Vec<Entry>, as_json: bool) -> (r: String)
    ensures
        !as_json ==> r@ == text_report(entries_view(top@)),
        as_json ==> r@ == pretty_json(entries_view(top@)),
{
    if as_json {
        return match entries_pretty_json(top) {
            Ok(s) => s,
            Err(_) => {
                proof {
                    assert(false);
                }
                String::new()
            },
        };
    }
    let ghost all = entries_view(top@);
    let mut out = String::new();
    let mut i: usize = 0;
    while i < top.len()
        invariant
            all == entries_view(top@),
            i <= top@.len(),
            out@ == text_report(all.take(i as int)),
        decreases top@.len() - i,
    {
        let ghost before = out@;
        assert(all.take(i as int + 1).drop_last() =~= all.take(i as int));
        assert(all.take(i as int + 1).last() == entry_view(top@[i as int]));
        let digits = decimal_chars_u64(top[i].1 as u64);
        push_chars(&mut out, &digits);
        push_char(&mut out, '\t');
        push_str(&mut out, top[i].0.as_str());
        push_char(&mut out, '\n');
        i = i + 1;
    }
    assert(all.take(top@.len() as int) =~= all);
    out
}

/// The words the tool counts in `text`: those of the normalised trimmed
/// text that are not stop words.
pub open spec fn counted_words(text: Seq<char>) -> Seq<Seq<char>> {
    without_stops(words(normalized(trim(text))), stop_views(STOP_WORDS@))
}

/// What the tool prints for `text`: `None` when no word is left to count
/// (an empty or blank text, or stop words only); otherwise the report of the
/// `top` most frequent words, as `render_top` gives it for some tally of
/// the counted words.
pub fn frequency_report(text: &str, top: usize, as_json: bool) -> (r: Option<String>)
    ensures
        r is None <==> counted_words(text@).len() == 0,
        r matches Some(rep) ==> exists|t: Seq<(Seq<char>, nat)>, best: Seq<(Seq<char>, nat)>|
            is_tally(t, counted_words(text@)) && is_top(best, t, top as nat) && (!as_json ==> rep@
                == text_report(best)) && (as_json ==> rep@ == pretty_json(best)),
{
    let trimmed = trim_str(text);
    let stops: &[&str] = STOP_WORDS.as_slice();
    let counts = word_counts(trimmed, stops);
    let ghost t = entries_view(counts@);
    let ghost ws = counted_words(text@);
    assert(stops@ == STOP_WORDS@);
    assert(is_tally(t, ws));
    if counts.len() == 0 {
        proof {
            if ws.len() > 0 {
                let w0 = ws[0];
                assert(exists|k: int| 0 <= k < t.len() && t[k].0 == w0);
            }
        }
        return None;
    }
    proof {
        assert(t[0].1 > 0);
        lemma_occurrences_bound(ws, t[0].0);
    }
    let best = top_n(&counts, top);
    let rep = render_top(&best, as_json);
    Some(rep)
}

} // verus!
