//! Iterator-style transformations over integer lists: filtering and
//! mapping, folds, parsing and counting.

use vstd::prelude::*;
use crate::collections::{seq_sum, sums_fit};
use crate::numbers::{decimal, lemma_decimal_parses_back, parse_i32_spec, parse_i32_text};

verus! {

broadcast use vstd::string::group_string_axioms;

/// Keeps the strictly positive even numbers, each multiplied by 3.
pub open spec fn tripled_evens(s: Seq<i32>) -> Seq<int>
    decreases s.len(),
{
    if s.len() == 0 {
        Seq::empty()
    } else if s.last() > 0 && s.last() % 2 == 0 {
        tripled_evens(s.drop_last()).push(s.last() * 3)
    } else {
        tripled_evens(s.drop_last())
    }
}

/// Keeps only strictly positive even integers, then multiplies each by 3;
/// every kept number times 3 must fit in an `i32`.
pub fn positive_even_tripled(nums: Vec<i32>) -> (out: Vec<i32>)
    requires
        forall|i: int| 0 <= i < nums@.len() && nums@[i] > 0 && nums@[i] % 2 == 0 ==> nums@[i]
            * 3 <= i32::MAX,
    ensures
        out@.map_values(|x: i32| x as int) == tripled_evens(nums@),
{
    let mut out: Vec<i32> = Vec::new();
    let mut i: usize = 0;
    while i < nums.len()
        invariant
            i <= nums@.len(),
            forall|j: int| 0 <= j < nums@.len() && nums@[j] > 0 && nums@[j] % 2 == 0 ==> nums@[j]
                * 3 <= i32::MAX,
            out@.map_values(|x: i32| x as int) == tripled_evens(nums@.take(i as int)),
        decreases nums@.len() - i,
    {
        assert(nums@.take(i as int + 1).drop_last() =~= nums@.take(i as int));
        let n = nums[i];
        if n > 0 && n % 2 == 0 {
            out.push(n * 3);
            assert(out@.map_values(|x: i32| x as int) =~= tripled_evens(nums@.take(i as int + 1)));
        }
        i = i + 1;
    }
    assert(nums@.take(nums@.len() as int) =~= nums@);
    out
}

/// Total of all elements (0 for an empty slice); every running total must
/// fit in an `i32`.
pub fn sum(nums: &[i32]) -> (total: i32)
    requires
        sums_fit(nums@),
    ensures
        total == seq_sum(nums@),
{
    crate::collections::sum(nums)
}

/// Product of a sequence of integers.
pub open spec fn seq_product(s: Seq<i32>) -> int
    decreases s.len(),
{
    if s.len() == 0 {
        1
    } else {
        seq_product(s.drop_last()) * s.last() as int
    }
}

/// Every running product of `s` (left to right) fits in an `i32`.
pub open spec fn products_fit(s: Seq<i32>) -> bool {
    forall|k: int| 0 <= k <= s.len() ==> i32::MIN <= #[trigger] seq_product(s.take(k)) <= i32::MAX
}

/// Product of all elements (1 for an empty slice); every running product
/// must fit in an `i32`.
pub fn product(nums: &[i32]) -> (p: i32)
    requires
        products_fit(nums@),
    ensures
        p == seq_product(nums@),
{
    let mut p: i32 = 1;
    let mut i: usize = 0;
    assert(nums@.take(0) =~= Seq::<i32>::empty());
    while i < nums.len()
        invariant
            products_fit(nums@),
            i <= nums@.len(),
            p == seq_product(nums@.take(i as int)),
        decreases nums@.len() - i,
    {
        assert(nums@.take(i as int + 1).drop_last() =~= nums@.take(i as int));
        assert(i32::MIN <= seq_product(nums@.take(i as int + 1)) <= i32::MAX);
        p = p * nums[i];
        i = i + 1;
    }
    assert(nums@.take(nums@.len() as int) =~= nums@);
    p
}

/// The values of the items that parse as `i32`, in order.
pub open spec fn parsed_ints(items: Seq<Seq<char>>) -> Seq<int>
    decreases items.len(),
{
    if items.len() == 0 {
        Seq::empty()
    } else {
        match parse_i32_spec(items.last()) {
            Some(v) => parsed_ints(items.drop_last()).push(v),
            None => parsed_ints(items.drop_last()),
        }
    }
}

/// The text of each item.
pub open spec fn item_views(items: Seq<&str>) -> Seq<Seq<char>> {
    items.map_values(|s: &str| s@)
}

/// Parses each item as an `i32` (no trimming) and keeps those that parse.
pub fn parse_ints(items: Vec<&str>) -> (out: Vec<i32>)
    ensures
        out@.map_values(|x: i32| x as int) == parsed_ints(item_views(items@)),
{
    let ghost all = item_views(items@);
    let mut out: Vec<i32> = Vec::new();
    let mut i: usize = 0;
    while i < items.len()
        invariant
            all == item_views(items@),
            i <= items@.len(),
            out@.map_values(|x: i32| x as int) == parsed_ints(all.take(i as int)),
        decreases items@.len() - i,
    {
        assert(all.take(i as int + 1).drop_last() =~= all.take(i as int));
        assert(all.take(i as int + 1).last() == items@[i as int]@);
        match parse_i32_text(items[i]) {
            Some(n) => {
                out.push(n);
                assert(out@.map_values(|x: i32| x as int) =~= parsed_ints(all.take(i as int + 1)));
            },
            None => {},
        }
        i = i + 1;
    }
    assert(all.take(items@.len() as int) =~= all);
    out
}

/// Number of values strictly greater than `threshold`.
pub open spec fn count_above(s: Seq<i32>, threshold: i32) -> nat
    decreases s.len(),
{
    if s.len() == 0 {
        0
    } else {
        count_above(s.drop_last(), threshold) + if s.last() > threshold {
            1nat
        } else {
            0nat
        }
    }
}

/// Counts the values strictly greater than `threshold`.
pub fn count_exceeding(values: &[i32], threshold: i32) -> (n: usize)
    ensures
        n == count_above(values@, threshold),
{
    let mut n: usize = 0;
    let mut i: usize = 0;
    while i < values.len()
        invariant
            i <= values@.len(),
            n <= i,
            n == count_above(values@.take(i as int), threshold),
        decreases values@.len() - i,
    {
        assert(values@.take(i as int + 1).drop_last() =~= values@.take(i as int));
        if values[i] > threshold {
            n = n + 1;
        }
        i = i + 1;
    }
    assert(values@.take(values@.len() as int) =~= values@);
    n
}

/// The total of two lists joined is the sum of their totals; the empty
/// list totals 0.
pub proof fn law_sum_of_concatenation(a: Seq<i32>, b: Seq<i32>)
    ensures
        seq_sum(a + b) == seq_sum(a) + seq_sum(b),
        seq_sum(Seq::<i32>::empty()) == 0,
    decreases b.len(),
{
    if b.len() == 0 {
        assert(a + b =~= a);
    } else {
        law_sum_of_concatenation(a, b.drop_last());
        assert((a + b).drop_last() =~= a + b.drop_last());
        assert((a + b).last() == b.last());
    }
}

/// The product of two lists joined is the product of their products; the
/// empty list's product is 1.
pub proof fn law_product_of_concatenation(a: Seq<i32>, b: Seq<i32>)
    ensures
        seq_product(a + b) == seq_product(a) * seq_product(b),
        seq_product(Seq::<i32>::empty()) == 1,
    decreases b.len(),
{
    if b.len() == 0 {
        assert(a + b =~= a);
    } else {
        law_product_of_concatenation(a, b.drop_last());
        assert((a + b).drop_last() =~= a + b.drop_last());
        assert((a + b).last() == b.last());
        let x = seq_product(a);
        let y = seq_product(b.drop_last());
        let z = b.last() as int;
        assert(x * y * z == x * (y * z)) by (nonlinear_arith);
    }
}

/// Raising the threshold never raises the count of values above it.
pub proof fn law_count_above_falls_as_threshold_rises(s: Seq<i32>, t1: i32, t2: i32)
    requires
        t1 <= t2,
    ensures
        count_above(s, t2) <= count_above(s, t1),
    decreases s.len(),
{
    if s.len() > 0 {
        law_count_above_falls_as_threshold_rises(s.drop_last(), t1, t2);
    }
}

/// Numbers written as decimal text parse back to the same list.
pub proof fn law_parse_ints_reads_decimal_texts(v: Seq<i32>)
    ensures
        parsed_ints(v.map_values(|x: i32| decimal(x as int))) == v.map_values(|x: i32| x as int),
    decreases v.len(),
{
    let texts = v.map_values(|x: i32| decimal(x as int));
    if v.len() == 0 {
        assert(texts =~= Seq::<Seq<char>>::empty());
        assert(v.map_values(|x: i32| x as int) =~= Seq::<int>::empty());
    } else {
        law_parse_ints_reads_decimal_texts(v.drop_last());
        assert(texts.drop_last() =~= v.drop_last().map_values(|x: i32| decimal(x as int)));
        assert(texts.last() == decimal(v.last() as int));
        lemma_decimal_parses_back(v.last() as int, i32::MIN as int, i32::MAX as int);
        assert(v.map_values(|x: i32| x as int) =~= v.drop_last().map_values(|x: i32| x as int).push(
            v.last() as int,
        ));
    }
}

} // verus!
