//! Decimal rendering of integers and the integer text format accepted by
//! std's `FromStr` / `from_str_radix` for the primitive integer types.

use vstd::prelude::*;

verus! {

// ---------------------------------------------------------------------------
// Rendering
// ---------------------------------------------------------------------------

/// The ASCII digit for `d` (`0 <= d < 10`).
pub open spec fn digit_char(d: int) -> char {
    (48 + d) as char
}

/// Decimal digits of a natural number, most significant first, no leading zeros.
pub open spec fn decimal_nat(n: nat) -> Seq<char>
    decreases n,
{
    if n < 10 {
        seq![digit_char(n as int)]
    } else {
        decimal_nat(n / 10).push(digit_char((n % 10) as int))
    }
}

/// Decimal text of an integer, with a leading `-` for negatives
/// (what `Display` prints for the primitive integer types).
pub open spec fn decimal(n: int) -> Seq<char> {
    if n < 0 {
        seq!['-'] + decimal_nat((-n) as nat)
    } else {
        decimal_nat(n as nat)
    }
}

/// The hexadecimal digit for `d` (`0 <= d < 16`): `0-9`, then `a-f`, or
/// `A-F` when `upper`.
pub open spec fn hex_digit_char(d: int, upper: bool) -> char {
    if d < 10 {
        (48 + d) as char
    } else if upper {
        (65 + d - 10) as char
    } else {
        (97 + d - 10) as char
    }
}

/// Hexadecimal digits of a natural number, most significant first, no
/// leading zeros (what `{:x}` prints, or `{:X}` when `upper`).
pub open spec fn hex_nat(n: nat, upper: bool) -> Seq<char>
    decreases n,
{
    if n < 16 {
        seq![hex_digit_char(n as int, upper)]
    } else {
        hex_nat(n / 16, upper).push(hex_digit_char((n % 16) as int, upper))
    }
}

/// The decimal digits of `n` read back give `n`, and they start with a digit.
pub proof fn lemma_decimal_nat_value(n: nat)
    ensures
        digits_value(decimal_nat(n), 10) == Some(n),
        decimal_nat(n).len() > 0,
        '0' <= decimal_nat(n)[0] <= '9',
    decreases n,
{
    if n >= 10 {
        lemma_decimal_nat_value(n / 10);
        let s = decimal_nat(n);
        assert(s.drop_last() =~= decimal_nat(n / 10));
        assert(s[0] == decimal_nat(n / 10)[0]);
    }
}

/// The hexadecimal digits of `n` read back in radix 16 give `n`, and they
/// start with a digit.
pub proof fn lemma_hex_nat_value(n: nat, upper: bool)
    ensures
        digits_value(hex_nat(n, upper), 16) == Some(n),
        hex_nat(n, upper).len() > 0,
        digit_value(hex_nat(n, upper)[0], 16) is Some,
    decreases n,
{
    if n >= 16 {
        lemma_hex_nat_value(n / 16, upper);
        let s = hex_nat(n, upper);
        assert(s.drop_last() =~= hex_nat(n / 16, upper));
        assert(s[0] == hex_nat(n / 16, upper)[0]);
    }
}

/// The last hexadecimal digit of `n` is an ASCII digit or letter.
pub proof fn lemma_hex_nat_last(n: nat, upper: bool)
    ensures
        hex_nat(n, upper).len() > 0,
        ('0' <= hex_nat(n, upper).last() <= '9') || ('a' <= hex_nat(n, upper).last() <= 'f') || (
        'A' <= hex_nat(n, upper).last() <= 'F'),
{
}

/// The decimal text of an integer in range reads back as that integer.
pub proof fn lemma_decimal_parses_back(v: int, lo: int, hi: int)
    requires
        lo <= v <= hi,
    ensures
        parse_int(decimal(v), 10, true, lo, hi) == Some(v),
{
    if v < 0 {
        lemma_decimal_nat_value((-v) as nat);
        assert((seq!['-'] + decimal_nat((-v) as nat)).drop_first() =~= decimal_nat((-v) as nat));
    } else {
        lemma_decimal_nat_value(v as nat);
    }
}

fn push_decimal(out: &mut Vec<char>, n: u64)
    ensures
        final(out)@ == old(out)@ + decimal_nat(n as nat),
    decreases n,
{
    if n >= 10 {
        push_decimal(out, n / 10);
    }
    let d: u8 = (n % 10) as u8;
    let c: char = (48u8 + d) as char;
    out.push(c);
    proof {
        if n >= 10 {
            assert(decimal_nat(n as nat) == decimal_nat((n / 10) as nat).push(c));
        } else {
            assert(decimal_nat(n as nat) =~= seq![c]);
        }
    }
}

/// The decimal characters of `n`.
pub fn decimal_chars_u64(n: u64) -> (v: Vec<char>)
    ensures
        v@ == decimal(n as int),
{
    let mut v: Vec<char> = Vec::new();
    push_decimal(&mut v, n);
    assert(v@ =~= decimal_nat(n as nat));
    v
}

/// The decimal characters of `n`, with `-` for negatives.
pub fn decimal_chars_i64(n: i64) -> (v: Vec<char>)
    ensures
        v@ == decimal(n as int),
{
    let mut v: Vec<char> = Vec::new();
    if n < 0 {
        v.push('-');
        let m: u64 = (0i128 - (n as i128)) as u64;
        push_decimal(&mut v, m);
        assert(v@ =~= seq!['-'] + decimal_nat((-n) as nat));
    } else {
        push_decimal(&mut v, n as u64);
        assert(v@ =~= decimal_nat(n as nat));
    }
    v
}

// ---------------------------------------------------------------------------
// Parsing
// ---------------------------------------------------------------------------

/// Value of one digit character in `radix` (`0-9`, then `a-z` / `A-Z`).
pub open spec fn digit_value(c: char, radix: nat) -> Option<nat> {
    let v: int = if '0' <= c && c <= '9' {
        c as int - 48
    } else if 'a' <= c && c <= 'z' {
        c as int - 97 + 10
    } else if 'A' <= c && c <= 'Z' {
        c as int - 65 + 10
    } else {
        radix as int
    };
    if 0 <= v < radix {
        Some(v as nat)
    } else {
        None
    }
}

/// Value of a non-empty run of digits, or `None` if some character is no digit.
pub open spec fn digits_value(s: Seq<char>, radix: nat) -> Option<nat>
    decreases s.len(),
{
    if s.len() == 0 {
        None
    } else if s.len() == 1 {
        digit_value(s[0], radix)
    } else {
        match (digits_value(s.drop_last(), radix), digit_value(s.last(), radix)) {
            (Some(high), Some(low)) => Some(high * radix + low),
            _ => None,
        }
    }
}

/// The integer that `s` spells: an optional `+` (or, when `signed`, `-`)
/// followed by one or more digits and nothing else. No range check.
pub open spec fn int_text_value(s: Seq<char>, radix: nat, signed: bool) -> Option<int> {
    if s.len() == 0 {
        None
    } else if s[0] == '+' {
        match digits_value(s.drop_first(), radix) {
            Some(v) => Some(v as int),
            None => None,
        }
    } else if s[0] == '-' {
        if signed {
            match digits_value(s.drop_first(), radix) {
                Some(v) => Some(-(v as int)),
                None => None,
            }
        } else {
            None
        }
    } else {
        match digits_value(s, radix) {
            Some(v) => Some(v as int),
            None => None,
        }
    }
}

/// What parsing `s` as an integer type with range `lo..=hi` yields.
pub open spec fn parse_int(s: Seq<char>, radix: nat, signed: bool, lo: int, hi: int) -> Option<int> {
    match int_text_value(s, radix, signed) {
        Some(v) => if lo <= v && v <= hi {
            Some(v)
        } else {
            None
        },
        None => None,
    }
}

/// `parse_int` for `u32` in decimal.
pub open spec fn parse_u32_spec(s: Seq<char>) -> Option<int> {
    parse_int(s, 10, false, 0, u32::MAX as int)
}

/// `parse_int` for `u16` in decimal.
pub open spec fn parse_u16_spec(s: Seq<char>) -> Option<int> {
    parse_int(s, 10, false, 0, u16::MAX as int)
}

/// `parse_int` for `u64` in decimal.
pub open spec fn parse_u64_spec(s: Seq<char>) -> Option<int> {
    parse_int(s, 10, false, 0, u64::MAX as int)
}

/// `parse_int` for `usize` in decimal.
pub open spec fn parse_usize_spec(s: Seq<char>) -> Option<int> {
    parse_int(s, 10, false, 0, usize::MAX as int)
}

/// `parse_int` for `i32` in decimal.
pub open spec fn parse_i32_spec(s: Seq<char>) -> Option<int> {
    parse_int(s, 10, true, i32::MIN as int, i32::MAX as int)
}

/// `parse_int` for `i64` in decimal.
pub open spec fn parse_i64_spec(s: Seq<char>) -> Option<int> {
    parse_int(s, 10, true, i64::MIN as int, i64::MAX as int)
}

/// The text of the error that parsing `s` as a `u16` reports.
pub uninterp spec fn u16_parse_error(s: Seq<char>) -> Seq<char>;

/// Parses a decimal `u32`.
///
/// Trusted: calls `str::parse::<u32>`; std documents the accepted text as an
/// optional `+` followed by digits only, and an error when the value does
/// not fit, which `parse_u32_spec` writes out.
#[verifier::external_body]
pub(crate) fn parse_u32_text(s: &str) -> (r: Option<u32>)
    ensures
        match r {
            Some(n) => parse_u32_spec(s@) == Some(n as int),
            None => parse_u32_spec(s@) is None,
        },
{
    s.parse::<u32>().ok()
}

/// Parses a decimal `u64`.
///
/// Trusted: calls `str::parse::<u64>` (format as for `parse_u32_text`).
#[verifier::external_body]
pub(crate) fn parse_u64_text(s: &str) -> (r: Option<u64>)
    ensures
        match r {
            Some(n) => parse_u64_spec(s@) == Some(n as int),
            None => parse_u64_spec(s@) is None,
        },
{
    s.parse::<u64>().ok()
}

/// Parses a decimal `usize`.
///
/// Trusted: calls `str::parse::<usize>` (format as for `parse_u32_text`).
#[verifier::external_body]
pub(crate) fn parse_usize_text(s: &str) -> (r: Option<usize>)
    ensures
        match r {
            Some(n) => parse_usize_spec(s@) == Some(n as int),
            None => parse_usize_spec(s@) is None,
        },
{
    s.parse::<usize>().ok()
}

/// Parses a decimal `i32`.
///
/// Trusted: calls `str::parse::<i32>`; std documents the accepted text as an
/// optional `+` or `-` followed by digits only, in range.
#[verifier::external_body]
pub(crate) fn parse_i32_text(s: &str) -> (r: Option<i32>)
    ensures
        match r {
            Some(n) => parse_i32_spec(s@) == Some(n as int),
            None => parse_i32_spec(s@) is None,
        },
{
    s.parse::<i32>().ok()
}

/// Parses a decimal `i64`.
///
/// Trusted: calls `str::parse::<i64>` (format as for `parse_i32_text`).
#[verifier::external_body]
pub(crate) fn parse_i64_text(s: &str) -> (r: Option<i64>)
    ensures
        match r {
            Some(n) => parse_i64_spec(s@) == Some(n as int),
            None => parse_i64_spec(s@) is None,
        },
{
    s.parse::<i64>().ok()
}

/// Parses a hexadecimal `u32` (digits only, no prefix).
///
/// Trusted: calls `u32::from_str_radix(s, 16)`, documented to accept an
/// optional `+` followed by digits `0-9`, `a-f`, `A-F`, in range.
#[verifier::external_body]
pub(crate) fn parse_hex_digits_u32(s: &str) -> (r: Option<u32>)
    ensures
        match r {
            Some(n) => parse_int(s@, 16, false, 0, u32::MAX as int) == Some(n as int),
            None => parse_int(s@, 16, false, 0, u32::MAX as int) is None,
        },
{
    u32::from_str_radix(s, 16).ok()
}

/// Parses a decimal `u16`, keeping the text of the error on failure.
///
/// Trusted: calls `str::parse::<u16>` (format as for `parse_u32_text`); on
/// failure it renders the `ParseIntError` with `to_string`, whose text is
/// named `u16_parse_error` and left unsaid.
#[verifier::external_body]
pub(crate) fn parse_u16_text(s: &str) -> (r: Result<u16, String>)
    ensures
        match r {
            Ok(n) => parse_u16_spec(s@) == Some(n as int),
            Err(msg) => parse_u16_spec(s@) is None && msg@ == u16_parse_error(s@),
        },
{
    match s.parse::<u16>() {
        Ok(n) => Ok(n),
        Err(e) => Err(e.to_string()),
    }
}

} // verus!
