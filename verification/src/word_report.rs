//! Word analysis with a printable report of its counts.

use vstd::prelude::*;
use crate::numbers::{decimal, decimal_chars_u64};
use crate::text::{push_chars, push_str};

pub use crate::word_stats::{analyze_text, AnalysisResult};

verus! {

broadcast use vstd::string::group_string_axioms;

/// The report text: `Total words: N` and `Unique words: M` on two lines.
pub fn format_result(result: &AnalysisResult) -> (text: String)
    ensures
        text@ == "Total words: "@ + decimal(result.total_words as int) + "\nUnique words: "@
            + decimal(result.unique_words as int),
{
    let mut text = "Total words: ".to_owned();
    let total = decimal_chars_u64(result.total_words as u64);
    push_chars(&mut text, &total);
    push_str(&mut text, "\nUnique words: ");
    let unique = decimal_chars_u64(result.unique_words as u64);
    push_chars(&mut text, &unique);
    text
}

} // verus!
