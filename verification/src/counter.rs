//! The shared counter of the minimal HTTP API.

use vstd::prelude::*;

verus! {

/// The count after one more increment; the count must be below its maximum.
pub fn next_count(n: i64) -> (r: i64)
    requires
        n < i64::MAX,
    ensures
        r == n + 1,
{
    n + 1
}

} // verus!
