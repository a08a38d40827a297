//! An in-memory todo service: the store behind list, create, get, update
//! and delete requests, and the errors those requests answer with.

use vstd::prelude::*;
use crate::todos::{
    copy_todo, first_with_id, is_blank, is_random_uuid, lemma_first_with_id, new_todo_id, page,
    page_of, patched, position_of, title_ok, todo_view, todos_view, CreateTodo, ErrorBody, ListTodosQuery,
    Todo, TodoId, TodoView, UpdateTodo,
};
use crate::text::{trim, trim_str};

verus! {

broadcast use vstd::string::group_string_axioms;

/// Why a request failed; each kind answers with its own HTTP status.
#[derive(Debug)]
pub enum ApiError {
    NotFound(String),
    BadRequest(String),
    Conflict(String),
    Internal,
}

/// The HTTP status and message of an error.
pub open spec fn error_parts(e: ApiError) -> (u16, Seq<char>) {
    match e {
        ApiError::NotFound(m) => (404, m@),
        ApiError::BadRequest(m) => (400, m@),
        ApiError::Conflict(m) => (409, m@),
        ApiError::Internal => (500, "internal server error"@),
    }
}

impl ApiError {
    /// The HTTP status and JSON body that answer this error.
    pub fn into_parts(self) -> (parts: (u16, ErrorBody))
        ensures
            (parts.0, parts.1.error@) == error_parts(self),
    {
        match self {
            ApiError::NotFound(msg) => (404, ErrorBody { error: msg }),
            ApiError::BadRequest(msg) => (400, ErrorBody { error: msg }),
            ApiError::Conflict(msg) => (409, ErrorBody { error: msg }),
            ApiError::Internal => (500, ErrorBody { error: "internal server error".to_owned() }),
        }
    }
}

/// The answer to a refused request where the service reports invalid
/// content as 422 Unprocessable Entity.
pub fn validation_error(message: &str) -> (parts: (u16, ErrorBody))
    ensures
        parts.0 == 422,
        parts.1.error@ == message@,
{
    (422, ErrorBody { error: message.to_owned() })
}

impl ApiError {
    /// The answer to this error where a refused title is reported as 422
    /// rather than 400; every other error as `into_parts` answers it.
    pub fn into_validation_parts(self) -> (parts: (u16, ErrorBody))
        ensures
            self matches ApiError::BadRequest(m) ==> parts.0 == 422 && parts.1.error@ == m@,
            !(self is BadRequest) ==> (parts.0, parts.1.error@) == error_parts(self),
    {
        match self {
            ApiError::BadRequest(msg) => validation_error(msg.as_str()),
            other => other.into_parts(),
        }
    }
}

/// The message of a refused blank title.
pub open spec fn blank_title_message() -> Seq<char> {
    "title must not be empty"@
}

/// The message of a missing todo.
pub open spec fn not_found_message() -> Seq<char> {
    "not found"@
}

/// A title must not be blank.
pub fn validate_title(s: &str) -> (r: Result<(), ApiError>)
    ensures
        title_ok(s@) ==> r is Ok,
        !title_ok(s@) ==> (r matches Err(ApiError::BadRequest(m)) && m@ == blank_title_message()),
{
    if is_blank(s) {
        Err(ApiError::BadRequest("title must not be empty".to_owned()))
    } else {
        Ok(())
    }
}

/// The title an update carries, as text.
pub open spec fn title_field(body: UpdateTodo) -> Option<Seq<char>> {
    match body.title {
        Some(s) => Some(s@),
        None => None,
    }
}

/// The todos of the service, in creation order.
pub struct TodoStore {
    todos: Vec<Todo>,
}

impl View for TodoStore {
    type V = Seq<TodoView>;

    closed spec fn view(&self) -> Seq<TodoView> {
        todos_view(self.todos@)
    }
}

impl TodoStore {
    /// A store without todos.
    pub fn new() -> (s: Self)
        ensures
            s@ == Seq::<TodoView>::empty(),
    {
        let s = TodoStore { todos: Vec::new() };
        assert(s@ =~= Seq::<TodoView>::empty());
        s
    }

    /// The todos a list request selects.
    pub fn list(&self, query: &ListTodosQuery) -> (out: Vec<Todo>)
        ensures
            todos_view(out@) == page(self@, query.offset, query.limit),
    {
        page_of(&self.todos, query.offset, query.limit)
    }

    /// Adds a todo with the given id, its title trimmed and not done; a
    /// blank title is refused and nothing changes.
    pub fn create_with_id(&mut self, body: CreateTodo, id: TodoId) -> (r: Result<Todo, ApiError>)
        ensures
            title_ok(body.title@) ==> (r matches Ok(t) && todo_view(t) == (id.0, trim(body.title@), false)
                && final(self)@ == old(self)@.push(todo_view(t))),
            !title_ok(body.title@) ==> (r matches Err(ApiError::BadRequest(m)) && m@
                == blank_title_message() && final(self)@ == old(self)@),
    {
        if let Err(e) = validate_title(body.title.as_str()) {
            return Err(e);
        }
        let todo = Todo { id, title: trim_str(body.title.as_str()).to_owned(), done: false };
        let ghost before = self@;
        self.todos.push(copy_todo(&todo));
        assert(self@ =~= before.push(todo_view(todo)));
        Ok(todo)
    }

    /// Adds a todo under a fresh random id; see `create_with_id`.
    pub fn create(&mut self, body: CreateTodo) -> (r: Result<Todo, ApiError>)
        ensures
            title_ok(body.title@) ==> (r matches Ok(t) && is_random_uuid(t.id.0) && t.title@ == trim(
                body.title@,
            ) && !t.done && final(self)@ == old(self)@.push(todo_view(t))),
            !title_ok(body.title@) ==> (r matches Err(ApiError::BadRequest(m)) && m@
                == blank_title_message() && final(self)@ == old(self)@),
    {
        let id = new_todo_id();
        self.create_with_id(body, id)
    }

    /// The first todo with the given id.
    pub fn get(&self, id: TodoId) -> (r: Result<Todo, ApiError>)
        ensures
            match first_with_id(self@, id.0) {
                Some(i) => r matches Ok(t) && todo_view(t) == self@[i],
                None => r matches Err(ApiError::NotFound(m)) && m@ == not_found_message(),
            },
    {
        proof {
            lemma_first_with_id(self@, id.0);
        }
        match position_of(&self.todos, id) {
            Some(i) => {
                assert(self@[i as int] == todo_view(self.todos@[i as int]));
                Ok(copy_todo(&self.todos[i]))
            },
            None => Err(ApiError::NotFound("not found".to_owned())),
        }
    }

    /// Updates the first todo with the given id: a present title (trimmed,
    /// must not be blank) and a present done flag replace the current ones.
    /// On any error nothing changes.
    pub fn update(&mut self, id: TodoId, body: UpdateTodo) -> (r: Result<Todo, ApiError>)
        ensures
            match first_with_id(old(self)@, id.0) {
                None => final(self)@ == old(self)@ && (r matches Err(ApiError::NotFound(m)) && m@
                    == not_found_message()),
                Some(i) => if body.title matches Some(t) && !title_ok(t@) {
                    final(self)@ == old(self)@ && (r matches Err(ApiError::BadRequest(m)) && m@
                        == blank_title_message())
                } else {
                    let v = patched(old(self)@[i], title_field(body), body.done);
                    r matches Ok(t) && todo_view(t) == v && final(self)@ == old(self)@.update(i, v)
                },
            },
    {
        proof {
            lemma_first_with_id(self@, id.0);
        }
        let i = match position_of(&self.todos, id) {
            Some(i) => i,
            None => return Err(ApiError::NotFound("not found".to_owned())),
        };
        let ghost before = self@;
        assert(before[i as int] == todo_view(self.todos@[i as int]));
        let mut todo = copy_todo(&self.todos[i]);
        if let Some(title) = &body.title {
            if let Err(e) = validate_title(title.as_str()) {
                return Err(e);
            }
            todo.title = trim_str(title.as_str()).to_owned();
        }
        if let Some(done) = body.done {
            todo.done = done;
        }
        self.todos.set(i, copy_todo(&todo));
        assert(self@ =~= before.update(i as int, todo_view(todo)));
        Ok(todo)
    }

    /// Removes the first todo with the given id and returns it.
    pub fn delete(&mut self, id: TodoId) -> (r: Result<Todo, ApiError>)
        ensures
            match first_with_id(old(self)@, id.0) {
                None => final(self)@ == old(self)@ && (r matches Err(ApiError::NotFound(m)) && m@
                    == not_found_message()),
                Some(i) => r matches Ok(t) && todo_view(t) == old(self)@[i] && final(self)@ == old(
                    self,
                )@.remove(i),
            },
    {
        proof {
            lemma_first_with_id(self@, id.0);
        }
        match position_of(&self.todos, id) {
            Some(i) => {
                let ghost before = self@;
                let removed = self.todos.remove(i);
                assert(before[i as int] == todo_view(removed));
                assert(self@ =~= before.remove(i as int));
                Ok(removed)
            },
            None => Err(ApiError::NotFound("not found".to_owned())),
        }
    }
}

/// The id occurs in at most one todo.
pub open spec fn id_unique(s: Seq<TodoView>, id: u128) -> bool {
    forall|i: int, j: int| 0 <= i < s.len() && 0 <= j < s.len() && s[i].0 == id && s[j].0 == id ==> i == j
}

/// A todo added under an id that no todo had yet is what a get of that id
/// returns.
pub proof fn law_get_returns_created(s: Seq<TodoView>, t: TodoView)
    requires
        first_with_id(s, t.0) is None,
    ensures
        first_with_id(s.push(t), t.0) == Some(s.len() as int),
        s.push(t)[s.len() as int] == t,
{
    lemma_first_with_id(s, t.0);
    lemma_first_with_id(s.push(t), t.0);
    match first_with_id(s.push(t), t.0) {
        Some(i) => {
            if i < s.len() {
                assert(s.push(t)[i] == s[i]);
            }
        },
        None => {
            assert(s.push(t)[s.len() as int] == t);
        },
    }
}

/// Once the only todo with an id is deleted, a get of that id finds nothing.
pub proof fn law_deleted_is_gone(s: Seq<TodoView>, id: u128)
    requires
        id_unique(s, id),
        first_with_id(s, id) is Some,
    ensures
        first_with_id(s.remove(first_with_id(s, id)->0), id) is None,
{
    lemma_first_with_id(s, id);
    let i = first_with_id(s, id)->0;
    let r = s.remove(i);
    lemma_first_with_id(r, id);
    if let Some(k) = first_with_id(r, id) {
        if k < i {
            assert(r[k] == s[k]);
        } else {
            assert(r[k] == s[k + 1]);
        }
    }
}

/// An update that carries no field changes nothing.
pub proof fn law_empty_update_keeps_todo(t: TodoView)
    ensures
        patched(t, None, None) == t,
{
}

/// A list request without paging returns every todo, in order.
pub proof fn law_list_without_paging_is_everything(s: Seq<TodoView>)
    ensures
        page(s, None, None) == s,
{
    assert(s.skip(0) =~= s);
}

/// A list request with an offset and a limit returns the window of at most
/// `limit` todos that starts at the offset; an offset at or past the end
/// gives an empty list.
pub proof fn law_list_window(s: Seq<TodoView>, offset: usize, limit: usize)
    ensures
        page(s, Some(offset), Some(limit)) == if offset >= s.len() {
            Seq::<TodoView>::empty()
        } else {
            s.subrange(
                offset as int,
                if offset + limit < s.len() {
                    offset + limit
                } else {
                    s.len() as int
                },
            )
        },
{
    if offset < s.len() {
        assert(page(s, Some(offset), Some(limit)) =~= s.subrange(
            offset as int,
            if offset + limit < s.len() {
                offset + limit
            } else {
                s.len() as int
            },
        ));
    }
}

} // verus!
