//! Validation of user-supplied values into typed results with explanatory
//! error messages: a TCP port and a user record.

use vstd::prelude::*;
use crate::numbers::{decimal, decimal_chars_i64, parse_u16_spec, parse_u16_text, u16_parse_error};
use crate::text::{lemma_trim_idempotent, push_chars, push_str, trim, trim_str};

verus! {

broadcast use vstd::string::group_string_axioms;

/// How `{:?}` renders a string: quoted, with escapes.
pub uninterp spec fn debug_quoted(s: Seq<char>) -> Seq<char>;

/// Trusted: renders `s` with `format!("{:?}", s)` (std's `Debug` for
/// `str`); the quoting and escaping are named `debug_quoted` and left unsaid.
#[verifier::external_body]
fn str_debug_text(s: &str) -> (d: String)
    ensures
        d@ == debug_quoted(s@),
{
    format!("{:?}", s)
}

/// The outcome of `parse_port` on the text `s`.
pub open spec fn port_result(s: Seq<char>) -> Result<u16, Seq<char>> {
    let t = trim(s);
    if t.len() == 0 {
        Err("port must not be empty"@)
    } else {
        match parse_u16_spec(t) {
            None => Err("invalid port "@ + debug_quoted(t) + ": "@ + u16_parse_error(t)),
            Some(n) => if n < 1024 {
                Err("port must be between 1024 and 65535 (inclusive), got "@ + decimal(n))
            } else {
                Ok(n as u16)
            },
        }
    }
}

/// Parses a TCP port in 1024..=65535 from text (surrounding whitespace ignored).
pub fn parse_port(s: &str) -> (r: Result<u16, String>)
    ensures
        match (r, port_result(s@)) {
            (Ok(n), Ok(m)) => n == m,
            (Err(e), Err(m)) => e@ == m,
            _ => false,
        },
{
    let t = trim_str(s);
    if t.is_empty() {
        return Err("port must not be empty".to_owned());
    }
    let n = match parse_u16_text(t) {
        Ok(n) => n,
        Err(e) => {
            let mut msg = "invalid port ".to_owned();
            let quoted = str_debug_text(t);
            push_str(&mut msg, quoted.as_str());
            push_str(&mut msg, ": ");
            push_str(&mut msg, e.as_str());
            return Err(msg);
        },
    };
    if n < 1024 {
        let mut msg = "port must be between 1024 and 65535 (inclusive), got ".to_owned();
        let digits = decimal_chars_i64(n as i64);
        push_chars(&mut msg, &digits);
        return Err(msg);
    }
    Ok(n)
}

/// Surrounding whitespace does not change what `parse_port` answers.
pub proof fn law_port_ignores_surrounding_whitespace(s: Seq<char>)
    ensures
        port_result(trim(s)) == port_result(s),
{
    lemma_trim_idempotent(s);
}

/// Every accepted port lies in 1024..=65535.
pub proof fn law_accepted_ports_in_range(s: Seq<char>)
    ensures
        port_result(s) matches Ok(n) ==> 1024 <= n <= 65535,
{
}

/// A validated user.
#[derive(Debug, PartialEq)]
pub struct User {
    pub name: String,
    pub age: i32,
}

/// Builds a user from a name (surrounding whitespace dropped, must not be
/// empty) and an age in 0..=130.
pub fn build_user(name: &str, age: i32) -> (r: Result<User, String>)
    ensures
        trim(name@).len() == 0 ==> (r matches Err(e) && e@ == "name must not be empty"@),
        trim(name@).len() > 0 && !(0 <= age <= 130) ==> (r matches Err(e) && e@
            == "age must be between 0 and 130 (inclusive), got "@ + decimal(age as int)),
        trim(name@).len() > 0 && 0 <= age <= 130 ==> (r matches Ok(u) && u.name@ == trim(name@)
            && u.age == age),
{
    let name = trim_str(name);
    if name.is_empty() {
        return Err("name must not be empty".to_owned());
    }
    if !(0 <= age && age <= 130) {
        let mut msg = "age must be between 0 and 130 (inclusive), got ".to_owned();
        let digits = decimal_chars_i64(age as i64);
        push_chars(&mut msg, &digits);
        return Err(msg);
    }
    Ok(User { name: name.to_owned(), age })
}

} // verus!
