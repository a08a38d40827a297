//! Safe parsing of user-typed values: integers, hexadecimal, booleans,
//! optional fields, and a configuration built from optional text fields.

use vstd::prelude::*;
use crate::numbers::{
    hex_nat, lemma_hex_nat_last, lemma_hex_nat_value,
    parse_hex_digits_u32, parse_i32_spec, parse_i32_text, parse_i64_spec, parse_i64_text,
    parse_int, parse_u32_spec, parse_u32_text, parse_u64_spec, parse_u64_text,
};
use crate::text::{
    chars_of, is_whitespace_char, is_ws, lemma_trim_padded, lowered, same_text, string_of, to_lowercase_str, trim,
    trim_str,
};

verus! {

broadcast use vstd::string::group_string_axioms;

/// The value a successful parse gives, as a mathematical integer.
pub open spec fn opt_int<T>(o: Option<T>, v: spec_fn(T) -> int) -> Option<int> {
    match o {
        Some(x) => Some(v(x)),
        None => None,
    }
}

/// Parses a `u32` after trimming surrounding whitespace.
pub fn parse_u32(s: &str) -> (r: Option<u32>)
    ensures
        opt_int(r, |x: u32| x as int) == parse_u32_spec(trim(s@)),
{
    parse_u32_text(trim_str(s))
}

/// Parses an `i64` after trimming surrounding whitespace.
pub fn parse_i64(s: &str) -> (r: Option<i64>)
    ensures
        opt_int(r, |x: i64| x as int) == parse_i64_spec(trim(s@)),
{
    parse_i64_text(trim_str(s))
}

/// An optional `i32` field: empty (after trimming) means the field is
/// present without a value, `Some(None)`; a valid integer gives
/// `Some(Some(n))`; anything else is a parse failure, `None`.
pub fn parse_optional_i32(s: &str) -> (r: Option<Option<i32>>)
    ensures
        trim(s@).len() == 0 ==> r == Some(None::<i32>),
        trim(s@).len() > 0 ==> match r {
            Some(Some(n)) => parse_i32_spec(trim(s@)) == Some(n as int),
            Some(None) => false,
            None => parse_i32_spec(trim(s@)) is None,
        },
{
    let trimmed = trim_str(s);
    if trimmed.is_empty() {
        Some(None)
    } else {
        match parse_i32_text(trimmed) {
            Some(n) => Some(Some(n)),
            None => None,
        }
    }
}

/// What `parse_hex_u32` accepts: `0x` or `0X` followed by hexadecimal digits.
pub open spec fn hex_u32_spec(t: Seq<char>) -> Option<int> {
    if t.len() >= 2 && t[0] == '0' && (t[1] == 'x' || t[1] == 'X') {
        parse_int(t.skip(2), 16, false, 0, u32::MAX as int)
    } else {
        None
    }
}

/// Parses `0x`-prefixed hexadecimal text (after trimming) into a `u32`.
pub fn parse_hex_u32(s: &str) -> (r: Option<u32>)
    ensures
        opt_int(r, |x: u32| x as int) == hex_u32_spec(trim(s@)),
{
    let trimmed = trim_str(s);
    let cs = chars_of(trimmed);
    if cs.len() >= 2 && cs[0] == '0' && (cs[1] == 'x' || cs[1] == 'X') {
        let mut rest: Vec<char> = Vec::new();
        let mut i: usize = 2;
        while i < cs.len()
            invariant
                2 <= i <= cs.len(),
                rest@ == cs@.subrange(2, i as int),
            decreases cs.len() - i,
        {
            rest.push(cs[i]);
            assert(cs@.subrange(2, i as int + 1) =~= cs@.subrange(2, i as int).push(cs@[i as int]));
            i = i + 1;
        }
        assert(rest@ =~= cs@.skip(2));
        let digits = string_of(&rest);
        parse_hex_digits_u32(digits.as_str())
    } else {
        None
    }
}

/// The `0x` or `0X` text of a number, with lower- or upper-case digits (what
/// `{:#x}` and `0X{:X}` print), parses back to the number, also with
/// surrounding spaces.
pub proof fn law_hex_text_parses_back(n: u32, upper: bool, capital_x: bool)
    ensures
        hex_u32_spec(trim(seq!['0', if capital_x { 'X' } else { 'x' }] + hex_nat(n as nat, upper)))
            == Some(n as int),
        hex_u32_spec(
            trim(seq![' '] + (seq!['0', if capital_x { 'X' } else { 'x' }] + hex_nat(n as nat, upper))
                + seq![' ']),
        ) == Some(n as int),
{
    let h = hex_nat(n as nat, upper);
    let t = seq!['0', if capital_x { 'X' } else { 'x' }] + h;
    lemma_hex_nat_value(n as nat, upper);
    lemma_hex_nat_last(n as nat, upper);
    assert(t.last() == h.last());
    assert(t[0] == '0');
    lemma_trim_padded(t);
    assert(t.skip(2) =~= h);
}

/// The boolean spelled by a lower-cased word.
pub open spec fn bool_word(w: Seq<char>) -> Option<bool> {
    if w == "true"@ || w == "1"@ || w == "yes"@ {
        Some(true)
    } else if w == "false"@ || w == "0"@ || w == "no"@ {
        Some(false)
    } else {
        None
    }
}

/// Parses `true`/`1`/`yes` and `false`/`0`/`no`, ignoring case and
/// surrounding whitespace.
pub fn parse_bool(s: &str) -> (r: Option<bool>)
    ensures
        r == bool_word(lowered(trim(s@))),
{
    let lower = to_lowercase_str(trim_str(s));
    let l = lower.as_str();
    if same_text(l, "true") || same_text(l, "1") || same_text(l, "yes") {
        Some(true)
    } else if same_text(l, "false") || same_text(l, "0") || same_text(l, "no") {
        Some(false)
    } else {
        None
    }
}

/// Runtime settings built from optional text fields.
#[derive(Debug)]
pub struct Config {
    pub retries: u32,
    pub debug: bool,
    pub timeout_ms: u64,
}

pub open spec fn default_retries_value() -> u32 {
    3
}

pub open spec fn default_debug_value() -> bool {
    false
}

pub open spec fn default_timeout_value() -> u64 {
    5000
}

/// Number of retries when none is given.
pub fn default_retries() -> (n: u32)
    ensures
        n == default_retries_value(),
{
    3
}

/// Debug mode when none is given.
pub fn default_debug() -> (b: bool)
    ensures
        b == default_debug_value(),
{
    false
}

/// Timeout in milliseconds when none is given.
pub fn default_timeout_ms() -> (n: u64)
    ensures
        n == default_timeout_value(),
{
    5_000
}

/// The retries a field gives: its parsed value, else the default.
pub open spec fn retries_from(field: Option<&str>) -> int {
    match field {
        Some(t) => match parse_u32_spec(trim(t@)) {
            Some(v) => v,
            None => default_retries_value() as int,
        },
        None => default_retries_value() as int,
    }
}

/// The debug flag a field gives: its parsed value, else the default.
pub open spec fn debug_from(field: Option<&str>) -> bool {
    match field {
        Some(t) => match bool_word(lowered(trim(t@))) {
            Some(b) => b,
            None => default_debug_value(),
        },
        None => default_debug_value(),
    }
}

/// The timeout a field gives: its parsed value, else the default.
pub open spec fn timeout_from(field: Option<&str>) -> int {
    match field {
        Some(t) => match parse_u64_spec(trim(t@)) {
            Some(v) => v,
            None => default_timeout_value() as int,
        },
        None => default_timeout_value() as int,
    }
}

impl Config {
    /// Builds a configuration from optional text fields; a field that is
    /// missing or does not parse takes its default.
    pub fn from_options(retries: Option<&str>, debug: Option<&str>, timeout_ms: Option<&str>) -> (c:
        Self)
        ensures
            c.retries as int == retries_from(retries),
            c.debug == debug_from(debug),
            c.timeout_ms as int == timeout_from(timeout_ms),
    {
        let retries = match retries {
            Some(t) => match parse_u32(t) {
                Some(n) => n,
                None => default_retries(),
            },
            None => default_retries(),
        };
        let debug = match debug {
            Some(t) => match parse_bool(t) {
                Some(b) => b,
                None => default_debug(),
            },
            None => default_debug(),
        };
        let timeout_ms = match timeout_ms {
            Some(t) => match parse_u64_text(trim_str(t)) {
                Some(n) => n,
                None => default_timeout_ms(),
            },
            None => default_timeout_ms(),
        };
        Config { retries, debug, timeout_ms }
    }
}

/// The commands of the parsing prompt.
pub enum PromptCommand {
    U32,
    I64,
    F64,
    Bool,
    OptI32,
    Hex,
    Unknown,
}

/// The command a word names.
pub open spec fn prompt_command_of(w: Seq<char>) -> PromptCommand {
    if w == "u32"@ {
        PromptCommand::U32
    } else if w == "i64"@ {
        PromptCommand::I64
    } else if w == "f64"@ {
        PromptCommand::F64
    } else if w == "bool"@ {
        PromptCommand::Bool
    } else if w == "opti32"@ {
        PromptCommand::OptI32
    } else if w == "hex"@ {
        PromptCommand::Hex
    } else {
        PromptCommand::Unknown
    }
}

/// Reads a command word.
pub fn prompt_command(word: &str) -> (c: PromptCommand)
    ensures
        c == prompt_command_of(word@),
{
    if same_text(word, "u32") {
        PromptCommand::U32
    } else if same_text(word, "i64") {
        PromptCommand::I64
    } else if same_text(word, "f64") {
        PromptCommand::F64
    } else if same_text(word, "bool") {
        PromptCommand::Bool
    } else if same_text(word, "opti32") {
        PromptCommand::OptI32
    } else if same_text(word, "hex") {
        PromptCommand::Hex
    } else {
        PromptCommand::Unknown
    }
}

/// Splits a line at its first whitespace character into the command word
/// and the rest (what `splitn(2, char::is_whitespace)` gives): without
/// whitespace the whole line is the command and the rest is empty.
pub fn split_command(line: &str) -> (parts: (String, String))
    ensures
        (forall|i: int| 0 <= i < line@.len() ==> !is_ws(#[trigger] line@[i])) ==> (parts.0@
            == line@ && parts.1@ == Seq::<char>::empty()),
        forall|i: int|
            0 <= i < line@.len() && is_ws(#[trigger] line@[i]) && (forall|j: int|
                0 <= j < i ==> !is_ws(line@[j])) ==> parts.0@ == line@.take(i) && parts.1@
                == line@.skip(i + 1),
{
    let cs = chars_of(line);
    let mut k: usize = 0;
    while k < cs.len() && !is_whitespace_char(cs[k])
        invariant
            cs@ == line@,
            k <= cs.len(),
            forall|j: int| 0 <= j < k ==> !is_ws(cs@[j]),
        decreases cs.len() - k,
    {
        k = k + 1;
    }
    let mut head: Vec<char> = Vec::new();
    let mut i: usize = 0;
    while i < k
        invariant
            k <= cs.len(),
            i <= k,
            head@ == cs@.take(i as int),
        decreases k - i,
    {
        head.push(cs[i]);
        assert(cs@.take(i as int + 1) =~= cs@.take(i as int).push(cs@[i as int]));
        i = i + 1;
    }
    let mut rest: Vec<char> = Vec::new();
    if k < cs.len() {
        let mut j: usize = k + 1;
        while j < cs.len()
            invariant
                k < cs.len(),
                k + 1 <= j <= cs.len(),
                rest@ == cs@.subrange(k + 1, j as int),
            decreases cs.len() - j,
        {
            rest.push(cs[j]);
            assert(cs@.subrange(k + 1, j as int + 1) =~= cs@.subrange(k + 1, j as int).push(cs@[j as int]));
            j = j + 1;
        }
        assert(rest@ =~= cs@.skip(k + 1));
    }
    proof {
        if k == cs.len() {
            assert(head@ =~= line@);
            assert(rest@ =~= Seq::<char>::empty());
        } else {
            assert(is_ws(cs@[k as int]));
            assert forall|i: int|
                0 <= i < line@.len() && is_ws(#[trigger] line@[i]) && (forall|j: int|
                    0 <= j < i ==> !is_ws(line@[j])) implies i == k by {
                if i < k {
                } else if i > k {
                    assert(!is_ws(line@[k as int]));
                }
            }
        }
    }
    (string_of(&head), string_of(&rest))
}

} // verus!
