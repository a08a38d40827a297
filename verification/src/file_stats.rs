//! Statistics of a text file: line and word counts and the first line read
//! as an `i32`, with one error kind per way the input can fall short.

use vstd::prelude::*;
use crate::numbers::{decimal, decimal_chars_i64, decimal_chars_u64, parse_i32_spec, parse_i32_text};
use crate::text::{chars_of, push_chars, push_str, same_text, string_of, texts, trim, trim_str, words};

verus! {

broadcast use vstd::string::group_string_axioms;

/// Why a run stopped.
#[derive(Debug, PartialEq)]
pub enum AppError {
    Usage(String),
    Io(String),
    EmptyFile,
    WhitespaceOnly,
    NoFirstLine,
    InvalidFirstLine(String),
}

/// The message shown for an error.
pub open spec fn error_text(e: AppError) -> Seq<char> {
    match e {
        AppError::Usage(m) => m@,
        AppError::Io(m) => m@,
        AppError::EmptyFile => "File is empty"@,
        AppError::WhitespaceOnly => "File contains only whitespace"@,
        AppError::NoFirstLine => "No first line found"@,
        AppError::InvalidFirstLine(line) => "First line is not a valid i32: '"@ + line@ + "'"@,
    }
}

impl AppError {
    /// The message shown for this error.
    pub fn message(&self) -> (m: String)
        ensures
            m@ == error_text(*self),
    {
        match self {
            AppError::Usage(m) => m.clone(),
            AppError::Io(m) => m.clone(),
            AppError::EmptyFile => "File is empty".to_owned(),
            AppError::WhitespaceOnly => "File contains only whitespace".to_owned(),
            AppError::NoFirstLine => "No first line found".to_owned(),
            AppError::InvalidFirstLine(line) => {
                let mut m = "First line is not a valid i32: '".to_owned();
                push_str(&mut m, line.as_str());
                push_str(&mut m, "'");
                m
            },
        }
    }
}

/// Number of `'\n'` characters in `s`.
pub open spec fn newlines(s: Seq<char>) -> nat
    decreases s.len(),
{
    if s.len() == 0 {
        0
    } else {
        newlines(s.drop_last()) + if s.last() == '\n' {
            1nat
        } else {
            0nat
        }
    }
}

/// Number of lines of `s` as `str::lines` splits it: one per `'\n'`, plus
/// one for a last line that has no `'\n'` after it.
pub open spec fn line_count(s: Seq<char>) -> nat {
    newlines(s) + if s.len() > 0 && s.last() != '\n' {
        1nat
    } else {
        0nat
    }
}

/// Position of the first `'\n'` in `s`, or its length when there is none.
pub open spec fn first_newline(s: Seq<char>) -> int
    decreases s.len(),
{
    if s.len() == 0 {
        0
    } else if s[0] == '\n' {
        0
    } else {
        1 + first_newline(s.drop_first())
    }
}

/// The first line of a non-empty `s`: the text before the first `'\n'`
/// without a `'\r'` right before it, or all of `s` when it has no `'\n'`.
pub open spec fn first_line(s: Seq<char>) -> Seq<char> {
    let k = first_newline(s);
    if k < s.len() {
        let p = s.take(k);
        if p.len() > 0 && p.last() == '\r' {
            p.drop_last()
        } else {
            p
        }
    } else {
        s
    }
}

proof fn lemma_first_newline(s: Seq<char>)
    ensures
        0 <= first_newline(s) <= s.len(),
        first_newline(s) < s.len() ==> s[first_newline(s)] == '\n',
        forall|j: int| 0 <= j < first_newline(s) ==> s[j] != '\n',
    decreases s.len(),
{
    if s.len() > 0 && s[0] != '\n' {
        lemma_first_newline(s.drop_first());
        assert forall|j: int| 0 <= j < first_newline(s) implies s[j] != '\n' by {
            if j > 0 {
                assert(s[j] == s.drop_first()[j - 1]);
            }
        }
    }
}

proof fn lemma_newlines_bound(s: Seq<char>)
    ensures
        newlines(s) <= s.len(),
        s.len() > 0 && s.last() != '\n' ==> newlines(s) < s.len(),
    decreases s.len(),
{
    if s.len() > 0 {
        lemma_newlines_bound(s.drop_last());
    }
}

proof fn lemma_first_newline_at_least(s: Seq<char>, m: int)
    requires
        0 <= m <= s.len(),
        forall|j: int| 0 <= j < m ==> s[j] != '\n',
    ensures
        m <= first_newline(s),
    decreases s.len(),
{
    lemma_first_newline(s);
    if m > 0 {
        assert(s[0] != '\n');
        assert forall|j: int| 0 <= j < m - 1 implies s.drop_first()[j] != '\n' by {
            assert(s.drop_first()[j] == s[j + 1]);
        }
        lemma_first_newline_at_least(s.drop_first(), m - 1);
        assert(first_newline(s) == 1 + first_newline(s.drop_first()));
    }
}

/// Counts lines; an empty text is an error.
pub fn count_lines(text: &str) -> (r: Result<usize, AppError>)
    ensures
        text@.len() == 0 ==> r == Err::<usize, AppError>(AppError::EmptyFile),
        text@.len() > 0 ==> (r matches Ok(n) && n == line_count(text@)),
{
    if text.is_empty() {
        return Err(AppError::EmptyFile);
    }
    let cs = chars_of(text);
    let mut n: usize = 0;
    let mut i: usize = 0;
    while i < cs.len()
        invariant
            cs@ == text@,
            i <= cs.len(),
            n == newlines(cs@.take(i as int)),
            n <= i,
        decreases cs.len() - i,
    {
        assert(cs@.take(i as int + 1).drop_last() =~= cs@.take(i as int));
        if cs[i] == '\n' {
            n = n + 1;
        }
        i = i + 1;
    }
    assert(cs@.take(cs.len() as int) =~= cs@);
    proof {
        lemma_newlines_bound(cs@);
    }
    if cs[cs.len() - 1] != '\n' {
        n = n + 1;
    }
    Ok(n)
}

/// Counts whitespace-separated words; a text of whitespace only is an error.
pub fn count_words(text: &str) -> (r: Result<usize, AppError>)
    ensures
        trim(text@).len() == 0 ==> r == Err::<usize, AppError>(AppError::WhitespaceOnly),
        trim(text@).len() > 0 ==> (r matches Ok(n) && n == words(text@).len()),
{
    if trim_str(text).is_empty() {
        return Err(AppError::WhitespaceOnly);
    }
    let cs = chars_of(text);
    Ok(crate::text::count_words(&cs))
}

/// Reads the first line as an `i32` (surrounding whitespace ignored).
pub fn parse_first_line_i32(text: &str) -> (r: Result<i32, AppError>)
    ensures
        text@.len() == 0 ==> r == Err::<i32, AppError>(AppError::NoFirstLine),
        text@.len() > 0 ==> match r {
            Ok(n) => parse_i32_spec(trim(first_line(text@))) == Some(n as int),
            Err(AppError::InvalidFirstLine(line)) => parse_i32_spec(trim(first_line(text@)))
                is None && line@ == first_line(text@),
            Err(_) => false,
        },
{
    if text.is_empty() {
        return Err(AppError::NoFirstLine);
    }
    let cs = chars_of(text);
    proof {
        lemma_first_newline(cs@);
    }
    let mut k: usize = 0;
    while k < cs.len() && cs[k] != '\n'
        invariant
            cs@ == text@,
            k <= cs.len(),
            forall|j: int| 0 <= j < k ==> cs@[j] != '\n',
            k <= first_newline(cs@),
        decreases cs.len() - k,
    {
        proof {
            lemma_first_newline_at_least(cs@, k + 1);
        }
        k = k + 1;
    }
    let mut end = k;
    if k < cs.len() && k > 0 && cs[k - 1] == '\r' {
        end = k - 1;
    }
    let mut line: Vec<char> = Vec::new();
    let mut i: usize = 0;
    while i < end
        invariant
            end <= cs.len(),
            i <= end,
            line@ == cs@.take(i as int),
        decreases end - i,
    {
        line.push(cs[i]);
        assert(cs@.take(i as int + 1) =~= cs@.take(i as int).push(cs@[i as int]));
        i = i + 1;
    }
    assert(first_newline(cs@) == k);
    assert(line@ =~= first_line(cs@));
    let first = string_of(&line);
    match parse_i32_text(trim_str(first.as_str())) {
        Some(n) => Ok(n),
        None => Err(AppError::InvalidFirstLine(first)),
    }
}

/// Where to read from, and whether a bad first line stops the run.
pub struct RunPlan {
    pub path: String,
    pub strict: bool,
}

/// The flag that makes a bad first line an error.
pub open spec fn strict_flag() -> Seq<char> {
    "--strict-first-line-int"@
}

/// The usage message.
pub open spec fn usage_text() -> Seq<char> {
    "Usage: cargo run -- <file_path> [--strict-first-line-int]"@
}

/// Reads the command-line arguments (program name excluded): the first
/// argument other than the strict flag is the path; the strict flag may
/// stand anywhere. Without a path, the usage message is the error.
pub fn select_input(args: &[String]) -> (r: Result<RunPlan, AppError>)
    ensures
        match r {
            Ok(plan) => {
                &&& plan.strict == (exists|i: int| 0 <= i < args@.len() && #[trigger] args@[i]@
                    == strict_flag())
                &&& exists|i: int|
                    0 <= i < args@.len() && #[trigger] args@[i]@ != strict_flag() && plan.path@
                        == args@[i]@ && forall|j: int| 0 <= j < i ==> args@[j]@ == strict_flag()
            },
            Err(AppError::Usage(m)) => m@ == usage_text() && forall|i: int|
                0 <= i < args@.len() ==> #[trigger] args@[i]@ == strict_flag(),
            Err(_) => false,
        },
{
    let flag = "--strict-first-line-int";
    let mut strict = false;
    let mut i: usize = 0;
    while i < args.len()
        invariant
            flag@ == strict_flag(),
            i <= args@.len(),
            strict == (exists|j: int| 0 <= j < i && #[trigger] args@[j]@ == strict_flag()),
        decreases args@.len() - i,
    {
        if same_text(args[i].as_str(), flag) {
            strict = true;
        }
        i = i + 1;
    }
    let mut k: usize = 0;
    while k < args.len()
        invariant
            flag@ == strict_flag(),
            k <= args@.len(),
            forall|j: int| 0 <= j < k ==> #[trigger] args@[j]@ == strict_flag(),
            strict == (exists|j: int| 0 <= j < args@.len() && #[trigger] args@[j]@ == strict_flag()),
        decreases args@.len() - k,
    {
        if !same_text(args[k].as_str(), flag) {
            assert(args@[k as int]@ != strict_flag());
            let path = args[k].clone();
            assert(path@ == args@[k as int]@);
            assert(strict == (exists|i: int| 0 <= i < args@.len() && #[trigger] args@[i]@
                    == strict_flag()));
            return Ok(RunPlan { path, strict });
        }
        k = k + 1;
    }
    Err(AppError::Usage("Usage: cargo run -- <file_path> [--strict-first-line-int]".to_owned()))
}

/// What a run prints, line by line, and how it ends.
pub struct RunReport {
    pub lines: Vec<String>,
    pub outcome: Result<(), AppError>,
}

/// The lines a run prints for a text with words: the line and word counts,
/// then the first line's number, or (unless strict) why it was skipped.
pub open spec fn report_lines(text: Seq<char>, strict: bool) -> Seq<Seq<char>> {
    let counts = seq![
        "Lines: "@ + decimal(line_count(text) as int),
        "Words: "@ + decimal(words(text).len() as int),
    ];
    match parse_i32_spec(trim(first_line(text))) {
        Some(n) => counts.push("First line as i32: "@ + decimal(n)),
        None => if strict {
            counts
        } else {
            counts.push(
                "First line parse skipped: "@ + ("First line is not a valid i32: '"@ + first_line(
                    text,
                ) + "'"@),
            )
        },
    }
}

/// Strict mode changes only what happens to a first line that is no `i32`:
/// when the first line reads as a number, both modes print the same three
/// lines, the last of them that number.
pub proof fn law_strict_only_affects_bad_first_line(text: Seq<char>)
    requires
        parse_i32_spec(trim(first_line(text))) is Some,
    ensures
        report_lines(text, true) == report_lines(text, false),
        report_lines(text, true).len() == 3,
        report_lines(text, true)[2] == "First line as i32: "@ + decimal(
            parse_i32_spec(trim(first_line(text)))->0,
        ),
{
}

fn counted_line(label: &str, n: usize) -> (line: String)
    ensures
        line@ == label@ + decimal(n as int),
{
    let mut line = label.to_owned();
    let digits = decimal_chars_u64(n as u64);
    push_chars(&mut line, &digits);
    line
}

/// The run over a file's text: an empty or blank text ends it with its
/// error before anything is printed; otherwise the counts are printed, and
/// a first line that is no `i32` ends it with an error in strict mode and is
/// reported as skipped otherwise.
pub fn run_report(text: &str, strict: bool) -> (r: RunReport)
    ensures
        text@.len() == 0 ==> r.lines@.len() == 0 && r.outcome == Err::<(), AppError>(
            AppError::EmptyFile,
        ),
        text@.len() > 0 && trim(text@).len() == 0 ==> r.lines@.len() == 0 && r.outcome == Err::<
            (),
            AppError,
        >(AppError::WhitespaceOnly),
        trim(text@).len() > 0 ==> {
            &&& texts(r.lines@) == report_lines(text@, strict)
            &&& (strict && parse_i32_spec(trim(first_line(text@))) is None) ==> (r.outcome matches Err(
                AppError::InvalidFirstLine(l),
            ) && l@ == first_line(text@))
            &&& !(strict && parse_i32_spec(trim(first_line(text@))) is None) ==> r.outcome is Ok
        },
{
    proof {
        if text@.len() == 0 {
            assert(trim(text@).len() == 0) by {
                assert(text@ =~= Seq::<char>::empty());
            }
        }
    }
    let mut lines: Vec<String> = Vec::new();
    let line_total = match count_lines(text) {
        Ok(n) => n,
        Err(e) => return RunReport { lines, outcome: Err(e) },
    };
    let word_total = match count_words(text) {
        Ok(n) => n,
        Err(e) => return RunReport { lines, outcome: Err(e) },
    };
    lines.push(counted_line("Lines: ", line_total));
    lines.push(counted_line("Words: ", word_total));
    let ghost counts = texts(lines@);
    match parse_first_line_i32(text) {
        Ok(n) => {
            let mut line = "First line as i32: ".to_owned();
            let digits = decimal_chars_i64(n as i64);
            push_chars(&mut line, &digits);
            lines.push(line);
            assert(texts(lines@) =~= report_lines(text@, strict));
            RunReport { lines, outcome: Ok(()) }
        },
        Err(e) => {
            if strict {
                assert(texts(lines@) =~= report_lines(text@, strict));
                RunReport { lines, outcome: Err(e) }
            } else {
                let mut line = "First line parse skipped: ".to_owned();
                let why = e.message();
                push_str(&mut line, why.as_str());
                assert(line@ =~= "First line parse skipped: "@ + ("First line is not a valid i32: '"@
                    + first_line(text@) + "'"@));
                lines.push(line);
                assert(texts(lines@) =~= report_lines(text@, strict));
                RunReport { lines, outcome: Ok(()) }
            }
        },
    }
}

} // verus!
