//! The answers a calculator prompt accepts: an operator and whether to go on.
//! The arithmetic itself is done on floating-point numbers by the program.

use vstd::prelude::*;
use crate::text::{chars_of, lowered, same_text, to_lowercase_str, trim, trim_str};

verus! {

broadcast use vstd::string::group_string_axioms;

/// The four operators the calculator knows.
pub open spec fn is_operator(c: char) -> bool {
    c == '+' || c == '-' || c == '*' || c == '/'
}

/// The operator a typed line names: its first character after trimming,
/// when that is one of `+ - * /`.
pub open spec fn operator_of(input: Seq<char>) -> Option<char> {
    let t = trim(input);
    if t.len() > 0 && is_operator(t[0]) {
        Some(t[0])
    } else {
        None
    }
}

/// Reads an operator from a typed line; `None` asks the user again.
pub fn operator_choice(input: &str) -> (op: Option<char>)
    ensures
        op == operator_of(input@),
{
    let cs = chars_of(trim_str(input));
    if cs.len() > 0 && (cs[0] == '+' || cs[0] == '-' || cs[0] == '*' || cs[0] == '/') {
        Some(cs[0])
    } else {
        None
    }
}

/// A yes/no answer: `y` or `yes` is yes, `n` or `no` is no.
pub open spec fn answer_of(s: Seq<char>) -> Option<bool> {
    if s == "y"@ || s == "yes"@ {
        Some(true)
    } else if s == "n"@ || s == "no"@ {
        Some(false)
    } else {
        None
    }
}

/// Whether to do another calculation, read from a typed line (trimmed,
/// then lower-cased); `None` asks the user again.
pub fn continue_choice(input: &str) -> (go_on: Option<bool>)
    ensures
        go_on == answer_of(lowered(trim(input@))),
{
    let l = to_lowercase_str(trim_str(input));
    let t = l.as_str();
    if same_text(t, "y") || same_text(t, "yes") {
        Some(true)
    } else if same_text(t, "n") || same_text(t, "no") {
        Some(false)
    } else {
        None
    }
}

} // verus!
