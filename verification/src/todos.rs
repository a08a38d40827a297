//! The todo model shared by the todo services: ids, items, request bodies,
//! paging of lists and title validation.

use vstd::prelude::*;
use crate::text::{trim, trim_str};

verus! {

broadcast use vstd::string::group_string_axioms;

/// A todo's identifier: the 128-bit value of a UUID.
#[derive(Clone, Copy, Debug, PartialEq, Eq, Structural)]
pub struct TodoId(pub u128);

/// `v` carries the version (4) and variant (RFC 4122) bits of a random UUID.
pub open spec fn is_random_uuid(v: u128) -> bool {
    (v >> 76u128) & 0xfu128 == 4 && (v >> 62u128) & 0x3u128 == 2
}

/// A fresh random identifier.
///
/// Trusted: calls `uuid::Uuid::new_v4` and takes `as_u128`; the crate masks
/// random bits to set version 4 and the RFC 4122 variant, which is all that
/// is said of the value.
#[verifier::external_body]
pub(crate) fn new_todo_id() -> (id: TodoId)
    ensures
        is_random_uuid(id.0),
{
    TodoId(uuid::Uuid::new_v4().as_u128())
}

/// The value of a UUID written as text, if the text is one.
pub uninterp spec fn uuid_value(s: Seq<char>) -> Option<u128>;

/// Parses a UUID from text (hyphenated, simple, braced or URN forms).
///
/// Trusted: calls `uuid::Uuid::parse_str` and takes `as_u128`; which texts
/// parse, and to what, is named `uuid_value` and left unsaid.
#[verifier::external_body]
pub(crate) fn parse_todo_id(s: &str) -> (id: Option<TodoId>)
    ensures
        match id {
            Some(t) => uuid_value(s@) == Some(t.0),
            None => uuid_value(s@) is None,
        },
{
    match uuid::Uuid::parse_str(s) {
        Ok(u) => Some(TodoId(u.as_u128())),
        Err(_) => None,
    }
}

/// A todo item.
#[derive(Clone, Debug)]
pub struct Todo {
    pub id: TodoId,
    pub title: String,
    pub done: bool,
}

/// A todo as values: id, title, done.
pub type TodoView = (u128, Seq<char>, bool);

pub open spec fn todo_view(t: Todo) -> TodoView {
    (t.id.0, t.title@, t.done)
}

/// Todos as values.
pub open spec fn todos_view(ts: Seq<Todo>) -> Seq<TodoView> {
    ts.map_values(|t: Todo| todo_view(t))
}

/// A copy of a todo.
pub fn copy_todo(t: &Todo) -> (c: Todo)
    ensures
        todo_view(c) == todo_view(*t),
{
    Todo { id: t.id, title: t.title.clone(), done: t.done }
}

/// Body of a create request.
pub struct CreateTodo {
    pub title: String,
}

/// Body of an update request: each present field replaces the current one.
pub struct UpdateTodo {
    pub title: Option<String>,
    pub done: Option<bool>,
}

/// Paging of a list request.
pub struct ListTodosQuery {
    pub offset: Option<usize>,
    pub limit: Option<usize>,
}

/// The JSON body of an error response.
pub struct ErrorBody {
    pub error: String,
}

/// The part of `s` that a list request returns: the first `offset` items
/// skipped (none by default), then at most `limit` items (all by default).
pub open spec fn page<A>(s: Seq<A>, offset: Option<usize>, limit: Option<usize>) -> Seq<A> {
    let skip = match offset {
        Some(o) => o as int,
        None => 0,
    };
    let rest = if skip >= s.len() {
        Seq::empty()
    } else {
        s.skip(skip)
    };
    match limit {
        Some(l) => if l < rest.len() {
            rest.take(l as int)
        } else {
            rest
        },
        None => rest,
    }
}

/// A limit caps a page whatever the offset, and without an offset the page
/// is the first `limit` items (all of them when there are fewer).
pub proof fn law_limit_caps_page<A>(s: Seq<A>, offset: Option<usize>, l: usize)
    ensures
        page(s, offset, Some(l)).len() <= l,
        page(s, None, Some(l)) == s.take(if l < s.len() { l as int } else { s.len() as int }),
{
    assert(s.skip(0) =~= s);
    if s.len() == 0 {
        assert(s.take(0) =~= Seq::<A>::empty());
    } else if l >= s.len() {
        assert(s.take(s.len() as int) =~= s);
    }
}

/// The items of `items` that `offset` and `limit` select, in order.
pub fn page_of(items: &Vec<Todo>, offset: Option<usize>, limit: Option<usize>) -> (out: Vec<Todo>)
    ensures
        todos_view(out@) == page(todos_view(items@), offset, limit),
{
    let ghost all = todos_view(items@);
    let start: usize = match offset {
        Some(o) => if o < items.len() {
            o
        } else {
            items.len()
        },
        None => 0,
    };
    let count: usize = match limit {
        Some(l) => if l < items.len() - start {
            l
        } else {
            items.len() - start
        },
        None => items.len() - start,
    };
    let mut out: Vec<Todo> = Vec::new();
    let mut i: usize = 0;
    let n = items.len();
    while i < count
        invariant
            n == items@.len(),
            all == todos_view(items@),
            start <= items@.len(),
            count <= items@.len() - start,
            i <= count,
            out@.len() == i,
            todos_view(out@) == all.subrange(start as int, start + i),
        decreases count - i,
    {
        let ghost before = todos_view(out@);
        assert(all[start + i] == todo_view(items@[start + i]));
        out.push(copy_todo(&items[start + i]));
        assert(todos_view(out@) =~= before.push(all[start + i]));
        assert(todos_view(out@) =~= all.subrange(start as int, start + i + 1));
        i = i + 1;
    }
    assert(todos_view(out@) =~= page(all, offset, limit));
    out
}

/// A todo after an update: each present field replaces the current one,
/// a new title trimmed.
pub open spec fn patched(t: TodoView, title: Option<Seq<char>>, done: Option<bool>) -> TodoView {
    (
        t.0,
        match title {
            Some(s) => trim(s),
            None => t.1,
        },
        match done {
            Some(d) => d,
            None => t.2,
        },
    )
}

/// A title is acceptable when it is not blank.
pub open spec fn title_ok(s: Seq<char>) -> bool {
    trim(s).len() > 0
}

/// Whether `s` is empty or whitespace only.
pub fn is_blank(s: &str) -> (b: bool)
    ensures
        b == !title_ok(s@),
{
    trim_str(s).is_empty()
}

/// Position of the first todo with the given id.
pub open spec fn first_with_id(ts: Seq<TodoView>, id: u128) -> Option<int>
    decreases ts.len(),
{
    if ts.len() == 0 {
        None
    } else if ts[0].0 == id {
        Some(0)
    } else {
        match first_with_id(ts.drop_first(), id) {
            Some(i) => Some(i + 1),
            None => None,
        }
    }
}

pub proof fn lemma_first_with_id(ts: Seq<TodoView>, id: u128)
    ensures
        match first_with_id(ts, id) {
            Some(i) => 0 <= i < ts.len() && ts[i].0 == id && forall|j: int| 0 <= j < i ==> ts[j].0 != id,
            None => forall|j: int| 0 <= j < ts.len() ==> ts[j].0 != id,
        },
    decreases ts.len(),
{
    if ts.len() > 0 && ts[0].0 != id {
        lemma_first_with_id(ts.drop_first(), id);
        match first_with_id(ts.drop_first(), id) {
            Some(i) => {
                assert(ts[i + 1] == ts.drop_first()[i]);
                assert forall|j: int| 0 <= j < i + 1 implies ts[j].0 != id by {
                    if j > 0 {
                        assert(ts[j] == ts.drop_first()[j - 1]);
                    }
                }
            },
            None => {
                assert forall|j: int| 0 <= j < ts.len() implies ts[j].0 != id by {
                    if j > 0 {
                        assert(ts[j] == ts.drop_first()[j - 1]);
                    }
                }
            },
        }
    }
}

/// Finds the position of the first todo with the given id.
pub fn position_of(items: &Vec<Todo>, id: TodoId) -> (p: Option<usize>)
    ensures
        match p {
            Some(i) => first_with_id(todos_view(items@), id.0) == Some(i as int),
            None => first_with_id(todos_view(items@), id.0) is None,
        },
{
    let ghost all = todos_view(items@);
    proof {
        lemma_first_with_id(all, id.0);
    }
    let mut i: usize = 0;
    while i < items.len()
        invariant
            all == todos_view(items@),
            i <= items@.len(),
            forall|j: int| 0 <= j < i ==> all[j].0 != id.0,
            match first_with_id(all, id.0) {
                Some(k) => 0 <= k < all.len() && all[k].0 == id.0 && forall|j: int| 0 <= j < k ==> all[j].0 != id.0,
                None => forall|j: int| 0 <= j < all.len() ==> all[j].0 != id.0,
            },
        decreases items@.len() - i,
    {
        assert(all[i as int] == todo_view(items@[i as int]));
        if items[i].id.0 == id.0 {
            return Some(i);
        }
        i = i + 1;
    }
    None
}

} // verus!
