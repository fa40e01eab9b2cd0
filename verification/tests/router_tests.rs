use minihttp::request::Method;
use minihttp::request::Request;
use minihttp::response::StatusCode;
use minihttp::router::HelloHandler;
use minihttp::router::HttpServer;
use minihttp::router::Router;

fn get(path_and_rest: &str) -> Request {
    let raw = format!("GET {} HTTP/1.1\r\n\r\n", path_and_rest);
    Request::parse(raw.as_bytes()).expect("test request must parse")
}

#[test]
fn dispatch_matches_exact_path() {
    let router: Router<u32, HelloHandler> =
        Router::new(0).route(Method::GET, "/", HelloHandler);
    let res = router.handle(&get("/"));
    assert_eq!(*res.status(), StatusCode::OK);
    assert_eq!(res.body(), &b"Hello, world!"[..]);
}

#[test]
fn dispatch_is_exact_match_only() {
    let router: Router<u32, HelloHandler> = Router::new(0)
        .route(Method::GET, "/todo", HelloHandler)
        .route(Method::GET, "/todos/", HelloHandler);
    let res = router.handle(&get("/todos"));
    assert_eq!(*res.status(), StatusCode::NotFound);
    assert_eq!(res.body(), &b"Not found"[..]);
}

#[test]
fn dispatch_matches_method_too() {
    let router: Router<u32, HelloHandler> =
        Router::new(0).route(Method::POST, "/x", HelloHandler);
    let req = get("/x");
    let res = router.handle(&req);
    assert_eq!(*res.status(), StatusCode::NotFound);
}

#[test]
fn unmatched_path_gives_404_not_found() {
    let router: Router<u32, HelloHandler> =
        Router::new(0).route(Method::GET, "/", HelloHandler);
    let res = router.handle(&get("/unknown"));
    assert_eq!(*res.status(), StatusCode::NotFound);
    assert_eq!(res.body(), &b"Not found"[..]);
    assert_eq!(res.header("Content-Length"), Some("9".to_string()));
    assert_eq!(res.header("Connection"), Some("close".to_string()));
}

#[test]
fn reregistering_overwrites_entry() {
    let router: Router<u32, HelloHandler> = Router::new(0)
        .route(Method::GET, "/a", HelloHandler)
        .route(Method::GET, "/a", HelloHandler);
    let res = router.handle(&get("/a"));
    assert_eq!(*res.status(), StatusCode::OK);
}

#[test]
fn server_dispatches_through_router() {
    let router: Router<u32, HelloHandler> =
        Router::new(7).route(Method::GET, "/", HelloHandler);
    let server = HttpServer::new(router);
    let ok = server.handle(&get("/"));
    assert_eq!(*ok.status(), StatusCode::OK);
    assert_eq!(ok.body(), &b"Hello, world!"[..]);
    let missing = server.handle(&get("/missing"));
    assert_eq!(*missing.status(), StatusCode::NotFound);
}
