use rust_days::counter::next_count;
use rust_days::todo_sql::{finish_write, plan_update};
use rust_days::todo_memory::{validate_title, validation_error, ApiError, TodoStore};
use rust_days::todo_sql::{
    self, apply_update, found_todo, list_from_rows, map_db_err, prepare_create, require_rows_affected,
    sqlite_parent_dir, todo_from_row, DbFailure, TodoRow,
};
use rust_days::todos::{is_blank, CreateTodo, ListTodosQuery, TodoId, UpdateTodo};

fn create(store: &mut TodoStore, title: &str, id: u128) -> TodoId {
    store
        .create_with_id(CreateTodo { title: title.to_string() }, TodoId(id))
        .ok()
        .expect("created")
        .id
}

#[test]
fn store_lists_with_offset_and_limit() {
    let mut store = TodoStore::new();
    for (i, title) in ["a", "b", "c"].iter().enumerate() {
        create(&mut store, title, i as u128 + 1);
    }
    let page = store.list(&ListTodosQuery { offset: Some(1), limit: Some(1) });
    assert_eq!(page.len(), 1);
    assert_eq!(page[0].title, "b");
    assert_eq!(store.list(&ListTodosQuery { offset: None, limit: None }).len(), 3);
    assert!(store.list(&ListTodosQuery { offset: Some(5), limit: None }).is_empty());
    assert_eq!(store.list(&ListTodosQuery { offset: Some(2), limit: Some(9) })[0].title, "c");
}

#[test]
fn store_create_get_update_delete() {
    let mut store = TodoStore::new();
    let refused = store.create_with_id(CreateTodo { title: "   ".to_string() }, TodoId(9));
    assert!(matches!(refused, Err(ApiError::BadRequest(ref m)) if m == "title must not be empty"));
    assert!(store.list(&ListTodosQuery { offset: None, limit: None }).is_empty());

    let id = create(&mut store, "  write tests ", 7);
    let got = store.get(id).ok().expect("found");
    assert_eq!(got.title, "write tests");
    assert!(!got.done);

    let same = store.update(id, UpdateTodo { title: None, done: None }).ok().expect("ok");
    assert_eq!(same.title, "write tests");
    let done = store.update(id, UpdateTodo { title: None, done: Some(true) }).ok().expect("ok");
    assert!(done.done);
    let bad = store.update(id, UpdateTodo { title: Some(" ".to_string()), done: Some(false) });
    assert!(matches!(bad, Err(ApiError::BadRequest(_))));
    assert!(store.get(id).ok().expect("still there").done);
    let renamed = store.update(id, UpdateTodo { title: Some(" new ".to_string()), done: None });
    assert_eq!(renamed.ok().expect("ok").title, "new");

    let removed = store.delete(id).ok().expect("deleted");
    assert_eq!(removed.id, id);
    assert!(matches!(store.get(id), Err(ApiError::NotFound(ref m)) if m == "not found"));
    assert!(matches!(store.delete(id), Err(ApiError::NotFound(_))));
    assert!(matches!(
        store.update(id, UpdateTodo { title: None, done: None }),
        Err(ApiError::NotFound(_))
    ));

    let fresh = store.create(CreateTodo { title: "random".to_string() }).ok().expect("created");
    assert_eq!((fresh.id.0 >> 76) & 0xf, 4);
    assert_eq!((fresh.id.0 >> 62) & 0x3, 2);
}

#[test]
fn error_parts_and_validation() {
    let (status, body) = ApiError::NotFound("not found".to_string()).into_parts();
    assert_eq!((status, body.error.as_str()), (404, "not found"));
    assert_eq!(ApiError::BadRequest("x".to_string()).into_parts().0, 400);
    assert_eq!(ApiError::Conflict("x".to_string()).into_parts().0, 409);
    let (status, body) = ApiError::Internal.into_parts();
    assert_eq!((status, body.error.as_str()), (500, "internal server error"));
    assert!(validate_title("ok").is_ok());
    assert!(is_blank(" \t"));
    assert!(!is_blank(" a "));
    assert_eq!(todo_sql::ApiError::Validation("v".to_string()).into_parts().0, 422);
    assert!(matches!(todo_sql::validate_title(""), Err(todo_sql::ApiError::Validation(_))));
}

#[test]
fn rows_become_todos() {
    let id = "550e8400-e29b-41d4-a716-446655440000";
    let row = TodoRow { id: id.to_string(), title: "t".to_string(), done: 1, created_at: "now".to_string() };
    let todo = todo_from_row(row.clone()).ok().expect("valid row");
    assert_eq!(todo.id.0, 0x550e8400_e29b_41d4_a716_446655440000);
    assert!(todo.done);
    let bad = TodoRow { id: "nope".to_string(), ..row.clone() };
    assert!(matches!(todo_from_row(bad.clone()), Err(todo_sql::ApiError::Internal)));
    let second = TodoRow { done: 0, ..row.clone() };
    let listed = list_from_rows(vec![row.clone(), second], Some(1), None).ok().expect("ok");
    assert_eq!(listed.len(), 1);
    assert!(!listed[0].done);
    assert!(matches!(list_from_rows(vec![row, bad], None, None), Err(todo_sql::ApiError::Internal)));
}

#[test]
fn sql_service_decisions() {
    let prepared = prepare_create(&CreateTodo { title: " buy milk ".to_string() }).ok().expect("ok");
    assert_eq!(prepared.title, "buy milk");
    assert!(matches!(
        prepare_create(&CreateTodo { title: "".to_string() }),
        Err(todo_sql::ApiError::Validation(_))
    ));
    let todo = rust_days::todos::Todo { id: TodoId(7), title: "a".to_string(), done: false };
    let updated = apply_update(todo.clone(), &UpdateTodo { title: Some(" b ".to_string()), done: Some(true) });
    let updated = updated.ok().expect("ok");
    assert_eq!((updated.title.as_str(), updated.done), ("b", true));
    assert!(apply_update(todo, &UpdateTodo { title: Some("".to_string()), done: None }).is_err());
    assert!(matches!(require_rows_affected(0), Err(todo_sql::ApiError::NotFound(_))));
    assert!(require_rows_affected(1).is_ok());
    assert!(matches!(map_db_err(DbFailure::RowNotFound), todo_sql::ApiError::NotFound(_)));
    assert!(matches!(map_db_err(DbFailure::UniqueViolation), todo_sql::ApiError::Conflict(ref m) if m == "resource already exists"));
    assert!(matches!(map_db_err(DbFailure::Other), todo_sql::ApiError::Internal));
}

#[test]
fn sqlite_directories() {
    assert_eq!(sqlite_parent_dir("sqlite://data/app.db"), Some("data".to_string()));
    assert_eq!(sqlite_parent_dir("sqlite:///tmp/x/app.db?mode=rwc"), Some("tmp/x".to_string()));
    assert_eq!(sqlite_parent_dir("sqlite://app.db"), None);
    assert_eq!(sqlite_parent_dir("sqlite://:memory:"), None);
    assert_eq!(sqlite_parent_dir("sqlite://memory"), None);
    assert_eq!(sqlite_parent_dir("postgres://x/y"), None);
}

#[test]
fn create_rejects_empty_title_with_400() {
    let mut store = TodoStore::new();
    let err = store.create(CreateTodo { title: "   ".to_string() }).err().expect("refused");
    let (status, body) = err.into_parts();
    assert_eq!(status, 400);
    assert_eq!(body.error, "title must not be empty");
    assert!(store.list(&ListTodosQuery { offset: None, limit: None }).is_empty());
}

#[test]
fn main_create_rejects_empty_title_with_422() {
    let mut store = TodoStore::new();
    let err = store.create(CreateTodo { title: "   ".to_string() }).err().expect("refused");
    let (status, body) = err.into_validation_parts();
    assert_eq!(status, 422);
    assert_eq!(body.error, "title must not be empty");
    let (status, _) = ApiError::NotFound("not found".to_string()).into_validation_parts();
    assert_eq!(status, 404);
    let (status, body) = validation_error("bad");
    assert_eq!((status, body.error.as_str()), (422, "bad"));
}

#[test]
fn lib_create_rejects_empty_title_with_422() {
    let err = prepare_create(&CreateTodo { title: "   ".to_string() }).err().expect("refused");
    let (status, body) = err.into_parts();
    assert_eq!(status, 422);
    assert_eq!(body.error, "title must not be empty");
}

#[test]
fn main_list_supports_offset_and_limit() {
    let mut store = TodoStore::new();
    for title in ["a", "b", "c"] {
        store.create(CreateTodo { title: title.to_string() }).ok().expect("created");
    }
    let todos = store.list(&ListTodosQuery { offset: Some(1), limit: Some(1) });
    assert_eq!(todos.len(), 1);
    assert_eq!(todos[0].title, "b");
}

#[test]
fn lib_list_supports_offset_and_limit() {
    let row = |id: &str, title: &str| TodoRow {
        id: id.to_string(),
        title: title.to_string(),
        done: 0,
        created_at: "2024-01-01T00:00:00+00:00".to_string(),
    };
    let rows = vec![
        row("67e55044-10b1-426f-9247-bb680e5fe0c8", "a"),
        row("67e55044-10b1-426f-9247-bb680e5fe0c9", "b"),
        row("67e55044-10b1-426f-9247-bb680e5fe0ca", "c"),
    ];
    let todos = list_from_rows(rows, Some(1), Some(1)).ok().expect("valid rows");
    assert_eq!(todos.len(), 1);
    assert_eq!(todos[0].title, "b");
}

#[test]
fn found_todo_answers_lookups() {
    assert!(matches!(found_todo(None), Err(todo_sql::ApiError::NotFound(ref m)) if m == "not found"));
    let row = TodoRow {
        id: "67e55044-10b1-426f-9247-bb680e5fe0c8".to_string(),
        title: "x".to_string(),
        done: 1,
        created_at: String::new(),
    };
    let todo = found_todo(Some(row.clone())).ok().expect("valid row");
    assert_eq!(todo.id, TodoId(0x67e5504410b1426f9247bb680e5fe0c8));
    assert!(todo.done);
    let bad = TodoRow { id: "nope".to_string(), ..row };
    assert!(matches!(found_todo(Some(bad)), Err(todo_sql::ApiError::Internal)));
}

#[test]
fn update_and_delete_flow_steps() {
    let row = TodoRow {
        id: "67e55044-10b1-426f-9247-bb680e5fe0c8".to_string(),
        title: "old".to_string(),
        done: 0,
        created_at: String::new(),
    };
    let body = UpdateTodo { title: Some("  new ".to_string()), done: Some(true) };
    assert!(matches!(plan_update(None, &body), Err(todo_sql::ApiError::NotFound(_))));
    let blank = UpdateTodo { title: Some(" ".to_string()), done: None };
    assert!(matches!(plan_update(Some(row.clone()), &blank), Err(todo_sql::ApiError::Validation(_))));
    let bad = TodoRow { id: "x".to_string(), ..row.clone() };
    assert!(matches!(plan_update(Some(bad), &body), Err(todo_sql::ApiError::Internal)));
    let todo = plan_update(Some(row), &body).ok().expect("planned");
    assert_eq!((todo.title.as_str(), todo.done), ("new", true));
    assert!(matches!(finish_write(0, todo.clone()), Err(todo_sql::ApiError::NotFound(ref m)) if m == "not found"));
    let done = finish_write(1, todo).ok().expect("written");
    assert_eq!(done.title, "new");
}

#[test]
fn counter_steps_by_one() {
    assert_eq!(next_count(0), 1);
    assert_eq!(next_count(-1), 0);
    assert_eq!(next_count(i64::MAX - 1), i64::MAX);
}
