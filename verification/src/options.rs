//! Small exercises on `Option`: defaults, descriptions and chained steps.

use vstd::prelude::*;
use crate::numbers::{decimal, decimal_chars_i64};
use crate::text::{push_chars, same_text};

verus! {

broadcast use vstd::string::group_string_axioms;

/// Points for a loyalty tier.
pub open spec fn tier_points(tier: Option<Seq<char>>) -> u32 {
    match tier {
        Some(t) => if t == "Gold"@ {
            100
        } else if t == "Silver"@ {
            50
        } else {
            0
        },
        None => 0,
    }
}

/// Gold gives 100, Silver 50, any other tier (or none) 0.
pub fn bonus_points(tier: Option<&str>) -> (p: u32)
    ensures
        p == tier_points(
            match tier {
                Some(t) => Some(t@),
                None => None,
            },
        ),
{
    match tier {
        Some(t) => if same_text(t, "Gold") {
            100
        } else if same_text(t, "Silver") {
            50
        } else {
            0
        },
        None => 0,
    }
}

/// `none`, or `some: ` followed by the number.
pub fn describe(opt: Option<i32>) -> (d: String)
    ensures
        d@ == match opt {
            None => "none"@,
            Some(n) => "some: "@ + decimal(n as int),
        },
{
    match opt {
        None => "none".to_owned(),
        Some(n) => {
            let mut d = "some: ".to_owned();
            let digits = decimal_chars_i64(n as i64);
            push_chars(&mut d, &digits);
            d
        },
    }
}

/// The byte length of the inner string, when there is one and it is not empty.
pub fn non_empty_len(opt: Option<String>) -> (r: Option<usize>)
    ensures
        match opt {
            None => r is None,
            Some(s) => if s@.len() == 0 {
                r is None
            } else {
                r == Some(vstd::utf8::encode_utf8(s@).len() as usize)
            },
        },
{
    match opt {
        None => None,
        Some(s) => {
            let t = s.as_str();
            if t.is_empty() {
                None
            } else {
                Some(t.len())
            }
        },
    }
}

/// Squares the value, keeps the square only when it is at most 100, then adds one.
pub fn square_chain(opt: Option<i32>) -> (r: Option<i32>)
    requires
        opt matches Some(n) ==> n * n <= i32::MAX,
    ensures
        match opt {
            None => r is None,
            Some(n) => if n * n <= 100 {
                r == Some((n * n + 1) as i32)
            } else {
                r is None
            },
        },
{
    match opt {
        None => None,
        Some(n) => {
            assert(0 <= n * n) by (nonlinear_arith);
            let sq = n * n;
            if sq <= 100 {
                Some(sq + 1)
            } else {
                None
            }
        },
    }
}

/// The stand-in for a costly default: counts one more call (the counter
/// wraps around at its maximum, as an atomic `fetch_add` does) and gives 99.
pub fn simulate_expensive_default(calls: &mut u64) -> (v: i64)
    ensures
        v == 99,
        *old(calls) < u64::MAX ==> *final(calls) == *old(calls) + 1,
        *old(calls) == u64::MAX ==> *final(calls) == 0,
{
    *calls = calls.wrapping_add(1);
    99
}

/// The label to show: the given one, else the first of the user names found
/// in the environment (`USER`, then `USERNAME`), else `guest`.
pub open spec fn label_choice(opt: Option<Seq<char>>, user: Option<Seq<char>>, username: Option<
    Seq<char>,
>) -> Seq<char> {
    match opt {
        Some(l) => l,
        None => match user {
            Some(u) => u,
            None => match username {
                Some(u) => u,
                None => "guest"@,
            },
        },
    }
}

/// The given label, or a default built from the user names the caller
/// looked up (`user` for `USER`, `username` for `USERNAME`), or `guest`.
pub fn label_or_else(opt: Option<String>, user: Option<String>, username: Option<String>) -> (l: String)
    ensures
        l@ == label_choice(
            match opt {
                Some(s) => Some(s@),
                None => None,
            },
            match user {
                Some(s) => Some(s@),
                None => None,
            },
            match username {
                Some(s) => Some(s@),
                None => None,
            },
        ),
{
    match opt {
        Some(l) => l,
        None => match user {
            Some(u) => u,
            None => match username {
                Some(u) => u,
                None => "guest".to_owned(),
            },
        },
    }
}

} // verus!
