//! Describable items (books and movies) with a shortening rule, and small
//! generic helpers.

use vstd::prelude::*;
use vstd::std_specs::cmp::PartialEqSpec;
use crate::numbers::{decimal, decimal_chars_u64};
use crate::text::{chars_of, push_chars, push_str, string_of};

verus! {

broadcast use vstd::string::group_string_axioms;

/// At most 32 characters of `d`, followed by `...` when something was cut.
pub open spec fn shortened(d: Seq<char>) -> Seq<char> {
    if d.len() > 32 {
        d.take(32) + "..."@
    } else {
        d
    }
}

/// Something with a one-line description.
pub trait Describe {
    /// The description, as text.
    spec fn description(&self) -> Seq<char>;

    fn describe(&self) -> (d: String)
        ensures
            d@ == self.description(),
    ;

    /// A short form of the description; by default its first 32 characters,
    /// with `...` when it is longer.
    fn short(&self) -> (s: String)
        default_ensures
            s@ == shortened(self.description()),
    {
        let full = self.describe();
        let cs = chars_of(full.as_str());
        if cs.len() > 32 {
            let mut head: Vec<char> = Vec::new();
            let mut i: usize = 0;
            while i < 32
                invariant
                    cs@.len() > 32,
                    i <= 32,
                    head@ == cs@.take(i as int),
                decreases 32 - i,
            {
                head.push(cs[i]);
                assert(cs@.take(i as int + 1) =~= cs@.take(i as int).push(cs@[i as int]));
                i = i + 1;
            }
            let mut s = string_of(&head);
            push_str(&mut s, "...");
            s
        } else {
            full
        }
    }
}

/// A book.
pub struct Book {
    pub title: String,
    pub pages: u32,
}

/// A movie.
pub struct Movie {
    pub title: String,
    pub duration_min: u32,
}

impl Describe for Book {
    open spec fn description(&self) -> Seq<char> {
        "Book '"@ + self.title@ + "' has "@ + decimal(self.pages as int) + " pages."@
    }

    fn describe(&self) -> (d: String) {
        let mut d = "Book '".to_owned();
        push_str(&mut d, self.title.as_str());
        push_str(&mut d, "' has ");
        let n = decimal_chars_u64(self.pages as u64);
        push_chars(&mut d, &n);
        push_str(&mut d, " pages.");
        d
    }
}

impl Describe for Movie {
    open spec fn description(&self) -> Seq<char> {
        "Movie '"@ + self.title@ + "' runs for "@ + decimal(self.duration_min as int) + " minutes."@
    }

    fn describe(&self) -> (d: String) {
        let mut d = "Movie '".to_owned();
        push_str(&mut d, self.title.as_str());
        push_str(&mut d, "' runs for ");
        let n = decimal_chars_u64(self.duration_min as u64);
        push_chars(&mut d, &n);
        push_str(&mut d, " minutes.");
        d
    }

    /// A movie's short form is its title and running time.
    fn short(&self) -> (s: String)
        ensures
            s@ == self.title@ + " ("@ + decimal(self.duration_min as int) + " min)"@,
    {
        let mut s = self.title.clone();
        push_str(&mut s, " (");
        let n = decimal_chars_u64(self.duration_min as u64);
        push_chars(&mut s, &n);
        push_str(&mut s, " min)");
        s
    }
}

/// The last item, when there is one.
pub fn last<T>(items: &[T]) -> (r: Option<&T>)
    ensures
        items@.len() == 0 ==> r is None,
        items@.len() > 0 ==> r == Some(&items@[items@.len() - 1]),
{
    if items.len() == 0 {
        None
    } else {
        Some(&items[items.len() - 1])
    }
}

/// The two values in the other order.
pub fn swap_pair<T>(a: T, b: T) -> (r: (T, T))
    ensures
        r == (b, a),
{
    (b, a)
}

/// Whether the two values are equal, by the type's `==`.
pub fn are_equal<T: PartialEq>(a: &T, b: &T) -> (eq: bool)
    ensures
        T::obeys_eq_spec() ==> eq == a.eq_spec(b),
{
    a == b
}

} // verus!
