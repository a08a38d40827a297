//! The decisions of the SQLite-backed todo service: turning stored rows
//! into todos, preparing new todos, applying updates, mapping database
//! failures to responses, and where a file database lives.

use vstd::prelude::*;
use crate::records::split_on;
use crate::text::{chars_of, string_of, trim, trim_str};
use crate::todos::{
    copy_todo, is_blank, is_random_uuid, new_todo_id, page, page_of, parse_todo_id, patched, title_ok,
    todo_view, todos_view, uuid_value, CreateTodo, ErrorBody, Todo, TodoId, TodoView, UpdateTodo,
};

verus! {

broadcast use vstd::string::group_string_axioms;

/// Why a request failed; each kind answers with its own HTTP status.
#[derive(Debug)]
pub enum ApiError {
    NotFound(String),
    BadRequest(String),
    /// A request whose content is refused, such as a blank title.
    Validation(String),
    Conflict(String),
    Internal,
}

/// The HTTP status and message of an error.
pub open spec fn error_parts(e: ApiError) -> (u16, Seq<char>) {
    match e {
        ApiError::NotFound(m) => (404, m@),
        ApiError::BadRequest(m) => (400, m@),
        ApiError::Validation(m) => (422, m@),
        ApiError::Conflict(m) => (409, m@),
        ApiError::Internal => (500, "internal server error"@),
    }
}

impl ApiError {
    /// The HTTP status and JSON body that answer this error.
    pub fn into_parts(self) -> (parts: (u16, ErrorBody))
        ensures
            (parts.0, parts.1.error@) == error_parts(self),
    {
        match self {
            ApiError::NotFound(msg) => (404, ErrorBody { error: msg }),
            ApiError::BadRequest(msg) => (400, ErrorBody { error: msg }),
            ApiError::Validation(msg) => (422, ErrorBody { error: msg }),
            ApiError::Conflict(msg) => (409, ErrorBody { error: msg }),
            ApiError::Internal => (500, ErrorBody { error: "internal server error".to_owned() }),
        }
    }
}

/// A title must not be blank.
pub fn validate_title(s: &str) -> (r: Result<(), ApiError>)
    ensures
        title_ok(s@) ==> r is Ok,
        !title_ok(s@) ==> (r matches Err(ApiError::Validation(m)) && m@ == "title must not be empty"@),
{
    if is_blank(s) {
        Err(ApiError::Validation("title must not be empty".to_owned()))
    } else {
        Ok(())
    }
}

/// The kinds of database failure that requests distinguish.
#[derive(Debug)]
pub enum DbFailure {
    /// A query that must return a row returned none.
    RowNotFound,
    /// A write broke a uniqueness constraint.
    UniqueViolation,
    /// Anything else.
    Other,
}

/// How a database failure is answered.
pub fn map_db_err(e: DbFailure) -> (r: ApiError)
    ensures
        match e {
            DbFailure::RowNotFound => r matches ApiError::NotFound(m) && m@ == "not found"@,
            DbFailure::UniqueViolation => r matches ApiError::Conflict(m) && m@
                == "resource already exists"@,
            DbFailure::Other => r is Internal,
        },
{
    match e {
        DbFailure::RowNotFound => ApiError::NotFound("not found".to_owned()),
        DbFailure::UniqueViolation => ApiError::Conflict("resource already exists".to_owned()),
        DbFailure::Other => ApiError::Internal,
    }
}

/// A todo as stored: the id as text, `done` as an integer flag.
#[derive(Debug, Clone)]
pub struct TodoRow {
    pub id: String,
    pub title: String,
    pub done: i64,
    pub created_at: String,
}

fn copy_row(r: &TodoRow) -> (c: TodoRow)
    ensures
        c.id@ == r.id@,
        c.title@ == r.title@,
        c.done == r.done,
        c.created_at@ == r.created_at@,
{
    TodoRow { id: r.id.clone(), title: r.title.clone(), done: r.done, created_at: r.created_at.clone() }
}

/// The todo a row holds, or `None` when its id is no UUID.
pub open spec fn row_todo(row: TodoRow) -> Option<TodoView> {
    match uuid_value(row.id@) {
        Some(v) => Some((v, row.title@, row.done != 0)),
        None => None,
    }
}

/// The todo a stored row holds; a row whose id is no UUID is an internal error.
pub fn todo_from_row(row: TodoRow) -> (r: Result<Todo, ApiError>)
    ensures
        match row_todo(row) {
            Some(v) => r matches Ok(t) && todo_view(t) == v,
            None => r matches Err(ApiError::Internal),
        },
{
    match parse_todo_id(row.id.as_str()) {
        Some(id) => Ok(Todo { id, title: row.title, done: row.done != 0 }),
        None => Err(ApiError::Internal),
    }
}

/// The todo a lookup by id found: no row means the todo does not exist.
pub fn found_todo(row: Option<TodoRow>) -> (r: Result<Todo, ApiError>)
    ensures
        match row {
            None => r matches Err(ApiError::NotFound(m)) && m@ == "not found"@,
            Some(x) => match row_todo(x) {
                Some(v) => r matches Ok(t) && todo_view(t) == v,
                None => r matches Err(ApiError::Internal),
            },
        },
{
    match row {
        None => Err(ApiError::NotFound("not found".to_owned())),
        Some(x) => todo_from_row(x),
    }
}

/// The todos that rows hold, or `None` if some row's id is no UUID.
pub open spec fn rows_todos(rows: Seq<TodoRow>) -> Option<Seq<TodoView>>
    decreases rows.len(),
{
    if rows.len() == 0 {
        Some(Seq::empty())
    } else {
        match (rows_todos(rows.drop_last()), row_todo(rows.last())) {
            (Some(ts), Some(t)) => Some(ts.push(t)),
            _ => None,
        }
    }
}

/// The todos of the listed rows (in their order) that `offset` and
/// `limit` select; any row whose id is no UUID makes the list an internal error.
pub fn list_from_rows(rows: Vec<TodoRow>, offset: Option<usize>, limit: Option<usize>) -> (r: Result<
    Vec<Todo>,
    ApiError,
>)
    ensures
        match rows_todos(rows@) {
            Some(ts) => r matches Ok(out) && todos_view(out@) == page(ts, offset, limit),
            None => r matches Err(ApiError::Internal),
        },
{
    let ghost rs = rows@;
    let mut todos: Vec<Todo> = Vec::new();
    let mut i: usize = 0;
    while i < rows.len()
        invariant
            rs == rows@,
            i <= rs.len(),
            rows_todos(rs.take(i as int)) == Some(todos_view(todos@)),
        decreases rs.len() - i,
    {
        assert(rs.take(i as int + 1).drop_last() =~= rs.take(i as int));
        assert(rs.take(i as int + 1).last() == rs[i as int]);
        let ghost before = todos_view(todos@);
        match todo_from_row(copy_row(&rows[i])) {
            Ok(t) => {
                todos.push(t);
                assert(todos_view(todos@) =~= before.push(todo_view(t)));
            },
            Err(e) => {
                proof {
                    lemma_rows_todos_prefix_none(rs, i as int + 1);
                }
                return Err(e);
            },
        }
        i = i + 1;
    }
    assert(rs.take(rs.len() as int) =~= rs);
    Ok(page_of(&todos, offset, limit))
}

proof fn lemma_rows_todos_prefix_none(rows: Seq<TodoRow>, k: int)
    requires
        0 <= k <= rows.len(),
        rows_todos(rows.take(k)) is None,
    ensures
        rows_todos(rows) is None,
    decreases rows.len() - k,
{
    if k < rows.len() {
        assert(rows.take(k + 1).drop_last() =~= rows.take(k));
        lemma_rows_todos_prefix_none(rows, k + 1);
    } else {
        assert(rows.take(k) =~= rows);
    }
}

/// What a create request stores: a fresh id and the trimmed title.
pub struct NewTodo {
    pub id: TodoId,
    pub title: String,
}

/// Checks a create request and prepares what to store.
pub fn prepare_create(body: &CreateTodo) -> (r: Result<NewTodo, ApiError>)
    ensures
        title_ok(body.title@) ==> (r matches Ok(n) && n.title@ == trim(body.title@) && is_random_uuid(
            n.id.0,
        )),
        !title_ok(body.title@) ==> (r matches Err(ApiError::Validation(m)) && m@
            == "title must not be empty"@),
{
    if let Err(e) = validate_title(body.title.as_str()) {
        return Err(e);
    }
    let id = new_todo_id();
    Ok(NewTodo { id, title: trim_str(body.title.as_str()).to_owned() })
}

/// Applies an update to a stored todo; a present blank title is refused.
pub fn apply_update(todo: Todo, body: &UpdateTodo) -> (r: Result<Todo, ApiError>)
    ensures
        body.title matches Some(t) && !title_ok(t@) ==> (r matches Err(ApiError::Validation(m)) && m@
            == "title must not be empty"@),
        !(body.title matches Some(t) && !title_ok(t@)) ==> (r matches Ok(u) && todo_view(u) == patched(
            todo_view(todo),
            match body.title {
                Some(s) => Some(s@),
                None => None,
            },
            body.done,
        )),
{
    let mut todo = todo;
    if let Some(title) = &body.title {
        if let Err(e) = validate_title(title.as_str()) {
            return Err(e);
        }
        todo.title = trim_str(title.as_str()).to_owned();
    }
    if let Some(done) = body.done {
        todo.done = done;
    }
    Ok(todo)
}

/// The todo an update request writes, from the row its lookup found: no
/// row is "not found", a row whose id is no UUID an internal error, a
/// present blank title a validation error; otherwise the stored todo with
/// the update applied.
pub fn plan_update(row: Option<TodoRow>, body: &UpdateTodo) -> (r: Result<Todo, ApiError>)
    ensures
        match row {
            None => r matches Err(ApiError::NotFound(m)) && m@ == "not found"@,
            Some(x) => match row_todo(x) {
                None => r matches Err(ApiError::Internal),
                Some(v) => if body.title matches Some(t) && !title_ok(t@) {
                    r matches Err(ApiError::Validation(m)) && m@ == "title must not be empty"@
                } else {
                    r matches Ok(u) && todo_view(u) == patched(
                        v,
                        match body.title {
                            Some(s) => Some(s@),
                            None => None,
                        },
                        body.done,
                    )
                },
            },
        },
{
    match found_todo(row) {
        Ok(todo) => apply_update(todo, body),
        Err(e) => Err(e),
    }
}

/// The answer to a write of `todo` (an update or a delete) that touched
/// `n` rows: none means the todo is gone, otherwise the todo itself.
pub fn finish_write(n: u64, todo: Todo) -> (r: Result<Todo, ApiError>)
    ensures
        n == 0 ==> (r matches Err(ApiError::NotFound(m)) && m@ == "not found"@),
        n > 0 ==> (r matches Ok(t) && todo_view(t) == todo_view(todo)),
{
    match require_rows_affected(n) {
        Ok(()) => Ok(todo),
        Err(e) => Err(e),
    }
}

/// A write that touched no row means the todo does not exist.
pub fn require_rows_affected(n: u64) -> (r: Result<(), ApiError>)
    ensures
        n == 0 ==> (r matches Err(ApiError::NotFound(m)) && m@ == "not found"@),
        n > 0 ==> r is Ok,
{
    if n == 0 {
        Err(ApiError::NotFound("not found".to_owned()))
    } else {
        Ok(())
    }
}

/// The parent of a file path (std's `Path::parent`), as text.
pub uninterp spec fn path_parent(p: Seq<char>) -> Option<Seq<char>>;

/// Trusted: calls `std::path::Path::parent` and renders the parent with
/// `to_string_lossy`; which prefix that is, is named `path_parent` and left unsaid.
#[verifier::external_body]
fn parent_of_path(p: &str) -> (parent: Option<String>)
    ensures
        match parent {
            Some(s) => path_parent(p@) == Some(s@),
            None => path_parent(p@) is None,
        },
{
    match std::path::Path::new(p).parent() {
        Some(q) => Some(q.to_string_lossy().into_owned()),
        None => None,
    }
}

/// The path of a `sqlite://` URL: after the scheme, up to the first `?`,
/// without one leading `/`; `None` for other URLs and in-memory databases.
pub open spec fn sqlite_file_path(url: Seq<char>) -> Option<Seq<char>> {
    let prefix = "sqlite://"@;
    if url.len() < prefix.len() || url.take(prefix.len() as int) != prefix {
        None
    } else {
        let rest = url.skip(prefix.len() as int);
        let memory = ":memory:"@;
        if (rest.len() >= memory.len() && rest.take(memory.len() as int) == memory) || rest == "memory"@ {
            None
        } else {
            let path_part = split_on(rest, '?')[0];
            if path_part.len() > 0 && path_part[0] == '/' {
                Some(path_part.drop_first())
            } else {
                Some(path_part)
            }
        }
    }
}

/// The directory to create before opening a file database: the non-empty
/// parent of its path.
pub open spec fn sqlite_parent(url: Seq<char>) -> Option<Seq<char>> {
    match sqlite_file_path(url) {
        Some(p) => match path_parent(p) {
            Some(d) => if d.len() > 0 {
                Some(d)
            } else {
                None
            },
            None => None,
        },
        None => None,
    }
}

fn starts_with_chars(s: &Vec<char>, prefix: &str) -> (b: bool)
    ensures
        b == (s@.len() >= prefix@.len() && s@.take(prefix@.len() as int) == prefix@),
{
    let p = chars_of(prefix);
    if p.len() > s.len() {
        return false;
    }
    let mut i: usize = 0;
    while i < p.len()
        invariant
            p@ == prefix@,
            p.len() <= s.len(),
            i <= p.len(),
            forall|j: int| 0 <= j < i ==> s@[j] == p@[j],
        decreases p.len() - i,
    {
        if s[i] != p[i] {
            assert(s@.take(p@.len() as int)[i as int] != p@[i as int]);
            return false;
        }
        i = i + 1;
    }
    assert(s@.take(p@.len() as int) =~= p@);
    true
}

/// The directory that must exist before a file database at `database_url`
/// can be created; `None` when there is nothing to create.
pub fn sqlite_parent_dir(database_url: &str) -> (dir: Option<String>)
    ensures
        match dir {
            Some(d) => sqlite_parent(database_url@) == Some(d@),
            None => sqlite_parent(database_url@) is None,
        },
{
    proof {
        reveal_strlit("sqlite://");
        reveal_strlit(":memory:");
    }
    let cs = chars_of(database_url);
    if !starts_with_chars(&cs, "sqlite://") {
        return None;
    }
    let mut rest: Vec<char> = Vec::new();
    let mut i: usize = 9;
    while i < cs.len()
        invariant
            9 <= i <= cs.len(),
            rest@ == cs@.subrange(9, i as int),
        decreases cs.len() - i,
    {
        rest.push(cs[i]);
        assert(cs@.subrange(9, i as int + 1) =~= cs@.subrange(9, i as int).push(cs@[i as int]));
        i = i + 1;
    }
    assert(rest@ =~= database_url@.skip(9));
    let rest_text = string_of(&rest);
    if starts_with_chars(&rest, ":memory:") || crate::text::same_text(rest_text.as_str(), "memory") {
        return None;
    }
    let pieces = crate::records::split_chars(&rest, '?');
    proof {
        crate::records::lemma_split_on_nonempty(rest@, '?');
    }
    assert(pieces@[0]@ == split_on(rest@, '?')[0]);
    let first = &pieces[0];
    let mut path: Vec<char> = Vec::new();
    let start: usize = if first.len() > 0 && first[0] == '/' {
        1
    } else {
        0
    };
    let mut k: usize = start;
    while k < first.len()
        invariant
            start <= k <= first.len(),
            path@ == first@.subrange(start as int, k as int),
        decreases first.len() - k,
    {
        path.push(first[k]);
        assert(first@.subrange(start as int, k as int + 1) =~= first@.subrange(start as int, k as int).push(first@[k as int]));
        k = k + 1;
    }
    proof {
        if start == 1 {
            assert(path@ =~= first@.drop_first());
        } else {
            assert(path@ =~= first@);
        }
    }
    let path_text = string_of(&path);
    match parent_of_path(path_text.as_str()) {
        Some(parent) => if parent.as_str().is_empty() {
            None
        } else {
            Some(parent)
        },
        None => None,
    }
}

} // verus!
