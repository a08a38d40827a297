//! Borrowing from slices: totals, maxima, optional lookups and word counts.

use vstd::prelude::*;
use crate::ranking::{entries_view, Entry};
use crate::tally::{add_word, is_tally};

verus! {

broadcast use vstd::string::group_string_axioms;

/// Sum of a sequence of integers.
pub open spec fn seq_sum(s: Seq<i32>) -> int
    decreases s.len(),
{
    if s.len() == 0 {
        0
    } else {
        seq_sum(s.drop_last()) + s.last() as int
    }
}

/// Every running total of `s` (left to right) fits in an `i32`.
pub open spec fn sums_fit(s: Seq<i32>) -> bool {
    forall|k: int| 0 <= k <= s.len() ==> i32::MIN <= #[trigger] seq_sum(s.take(k)) <= i32::MAX
}

/// Total of the numbers; every running total must fit in an `i32`.
pub fn sum(nums: &[i32]) -> (total: i32)
    requires
        sums_fit(nums@),
    ensures
        total == seq_sum(nums@),
{
    let mut total: i32 = 0;
    let mut i: usize = 0;
    assert(nums@.take(0) =~= Seq::<i32>::empty());
    while i < nums.len()
        invariant
            sums_fit(nums@),
            i <= nums@.len(),
            total == seq_sum(nums@.take(i as int)),
        decreases nums@.len() - i,
    {
        assert(nums@.take(i as int + 1).drop_last() =~= nums@.take(i as int));
        assert(i32::MIN <= seq_sum(nums@.take(i as int + 1)) <= i32::MAX);
        total = total + nums[i];
        i = i + 1;
    }
    assert(nums@.take(nums@.len() as int) =~= nums@);
    total
}

/// The largest number, or `None` for an empty slice.
pub fn max(nums: &[i32]) -> (m: Option<i32>)
    ensures
        nums@.len() == 0 ==> m is None,
        nums@.len() > 0 ==> (m matches Some(x) && nums@.contains(x) && forall|i: int|
            0 <= i < nums@.len() ==> nums@[i] <= x),
{
    if nums.len() == 0 {
        return None;
    }
    let mut best = nums[0];
    let mut i: usize = 1;
    while i < nums.len()
        invariant
            1 <= i <= nums@.len(),
            nums@.contains(best),
            forall|j: int| 0 <= j < i ==> nums@[j] <= best,
        decreases nums@.len() - i,
    {
        if nums[i] > best {
            best = nums[i];
        }
        i = i + 1;
    }
    Some(best)
}

/// The third item, when there is one.
pub fn third_item(v: &[String]) -> (r: Option<&String>)
    ensures
        v@.len() > 2 ==> r == Some(&v@[2]),
        v@.len() <= 2 ==> r is None,
{
    if v.len() > 2 {
        Some(&v[2])
    } else {
        None
    }
}

/// The text of each word.
pub open spec fn word_views(words: Seq<&str>) -> Seq<Seq<char>> {
    words.map_values(|w: &str| w@)
}

/// How many times each distinct word occurs.
pub fn word_counts(words: &[&str]) -> (counts: Vec<Entry>)
    ensures
        is_tally(entries_view(counts@), word_views(words@)),
{
    let ghost all = word_views(words@);
    let mut counts: Vec<Entry> = Vec::new();
    let mut i: usize = 0;
    while i < words.len()
        invariant
            all == word_views(words@),
            i <= words@.len(),
            is_tally(entries_view(counts@), all.take(i as int)),
        decreases words@.len() - i,
    {
        assert(all.take(i as int + 1) =~= all.take(i as int).push(words@[i as int]@));
        add_word(&mut counts, words[i].to_owned(), Ghost(all.take(i as int)));
        i = i + 1;
    }
    assert(all.take(words@.len() as int) =~= all);
    counts
}

} // verus!
