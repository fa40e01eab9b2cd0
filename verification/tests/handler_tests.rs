use minihttp::handlers::Todo;
use minihttp::handlers::create_response;
use minihttp::handlers::delete_todos;
use minihttp::handlers::get_state;
use minihttp::handlers::post_todo;
use minihttp::request::Request;
use minihttp::response::StatusCode;
use std::sync::Arc;
use std::sync::RwLock;

fn parse(raw: &[u8]) -> Request {
    Request::parse(raw).expect("test request must parse")
}

#[test]
fn end_to_end_todo_flow() {
    let mut todos: Vec<Todo> = Vec::new();

    let hello = parse(b"GET / HTTP/1.1\r\n\r\n");
    let state = String::new();
    let (res, _state) = create_response(&hello, &state);
    assert_eq!(*res.status(), StatusCode::OK);
    assert_eq!(res.body(), &b"Hello, world!"[..]);

    let post = parse(
        b"POST /todos HTTP/1.1\r\n\r\n{\"id\":\"1\",\"completed_at\":false,\"title\":\"x\"}",
    );
    let res = post_todo(post.body().as_str(), &mut todos);
    assert_eq!(*res.status(), StatusCode::OK);
    assert_eq!(res.body(), &b"State updated"[..]);
    assert_eq!(todos.len(), 1);

    let listing = get_state(&parse(b"GET /todos HTTP/1.1\r\n\r\n"), &todos);
    assert_eq!(*listing.status(), StatusCode::OK);
    assert_eq!(
        listing.body(),
        &b"[{\"id\":\"1\",\"completed_at\":false,\"title\":\"x\"}]"[..]
    );
    assert_eq!(
        listing.header("Content-Type"),
        Some("application/json".to_string())
    );

    let res = delete_todos(&mut todos);
    assert_eq!(*res.status(), StatusCode::OK);
    assert!(todos.is_empty());

    let empty_listing = get_state(&parse(b"GET /todos HTTP/1.1\r\n\r\n"), &todos);
    assert_eq!(empty_listing.body(), &b"[]"[..]);

    let res = post_todo("not json", &mut todos);
    assert_eq!(*res.status(), StatusCode::BadRequest);
    assert_eq!(res.body(), &b"Invalid body"[..]);
    assert!(todos.is_empty());
}

#[test]
fn two_writers_through_shared_state_lose_no_update() {
    let state: Arc<RwLock<Vec<Todo>>> = Arc::new(RwLock::new(Vec::new()));
    let writer_a = state.clone();
    let writer_b = state.clone();

    {
        let mut guard = writer_a.write().unwrap();
        let res = post_todo(
            "{\"id\":\"1\",\"completed_at\":false,\"title\":\"a\"}",
            &mut *guard,
        );
        assert_eq!(*res.status(), StatusCode::OK);
    }
    {
        let mut guard = writer_b.write().unwrap();
        let res = post_todo(
            "{\"id\":\"2\",\"completed_at\":true,\"title\":\"b\"}",
            &mut *guard,
        );
        assert_eq!(*res.status(), StatusCode::OK);
    }

    let final_state = state.read().unwrap();
    assert_eq!(final_state.len(), 2);
    assert!(final_state.iter().any(|t| t.id == "1"));
    assert!(final_state.iter().any(|t| t.id == "2"));
}

#[test]
fn string_state_routes() {
    let get_root = parse(b"GET / HTTP/1.1\r\n\r\n");
    let get_st = parse(b"GET /state HTTP/1.1\r\n\r\n");
    let post_st = parse(b"POST /state HTTP/1.1\r\n\r\nnew value");
    let del_st = parse(b"DELETE /state HTTP/1.1\r\n\r\n");
    let other = parse(b"GET /nope HTTP/1.1\r\n\r\n");

    let state = "initial".to_string();

    let (res, state) = create_response(&get_root, &state);
    assert_eq!(*res.status(), StatusCode::OK);
    assert_eq!(res.body(), &b"Hello, world!"[..]);
    assert_eq!(state, "initial");

    let (res, state) = create_response(&get_st, &state);
    assert_eq!(*res.status(), StatusCode::Created);
    assert_eq!(res.body(), &b"initial"[..]);

    let (res, state) = create_response(&post_st, &state);
    assert_eq!(*res.status(), StatusCode::Created);
    assert_eq!(res.body(), &b"new value"[..]);
    assert_eq!(state, "new value");

    let (res, state) = create_response(&del_st, &state);
    assert_eq!(*res.status(), StatusCode::OK);
    assert_eq!(res.body(), &b""[..]);
    assert_eq!(state, "");

    let (res, _state) = create_response(&other, &state);
    assert_eq!(*res.status(), StatusCode::NotFound);
    assert_eq!(res.body(), &b"Not Found"[..]);
}
