use minihttp::request::Method;
use minihttp::request::Request;

#[test]
fn parse_recovers_all_parts() {
    let buf = b"GET /todos HTTP/1.1\r\nHost: example\r\nAccept: */*\r\n\r\nhello body";
    let req = Request::parse(buf).expect("well-formed request must parse");
    assert_eq!(*req.method(), Method::GET);
    assert_eq!(req.path().as_str(), "/todos");
    assert_eq!(req.body().as_str(), "hello body");
    let hs = req.headers();
    assert_eq!(hs.len(), 2);
    assert_eq!(req.header("Host"), Some("example".to_string()));
    assert_eq!(req.header("Accept"), Some("*/*".to_string()));
}

#[test]
fn parse_post_and_delete_methods() {
    let post = Request::parse(b"POST /todos HTTP/1.1\r\n\r\n{}").unwrap();
    assert_eq!(*post.method(), Method::POST);
    let del = Request::parse(b"DELETE /todos HTTP/1.1\r\n\r\n").unwrap();
    assert_eq!(*del.method(), Method::DELETE);
    assert_eq!(del.body().as_str(), "");
}

#[test]
fn parse_fails_without_terminator() {
    assert!(Request::parse(b"GET / HTTP/1.1\r\nHost: x\r\n").is_none());
    assert!(Request::parse(b"").is_none());
    assert!(Request::parse(b"GET / HTTP/1.1").is_none());
}

#[test]
fn parse_fails_on_unknown_method() {
    assert!(Request::parse(b"PATCH / HTTP/1.1\r\n\r\n").is_none());
    assert!(Request::parse(b"get / HTTP/1.1\r\n\r\n").is_none());
    assert!(Request::parse(b"GETX / HTTP/1.1\r\n\r\n").is_none());
}

#[test]
fn parse_fails_on_short_request_line() {
    assert!(Request::parse(b"GET /\r\n\r\n").is_none());
    assert!(Request::parse(b"GET\r\n\r\n").is_none());
    assert!(Request::parse(b"\r\n\r\n").is_none());
}

#[test]
fn parse_fails_on_invalid_utf8_headers() {
    assert!(Request::parse(b"GET / HTTP/1.1\r\nX: \xff\xfe\r\n\r\n").is_none());
}

#[test]
fn parse_body_is_lossy() {
    let req = Request::parse(b"GET / HTTP/1.1\r\n\r\n\xffrest").unwrap();
    assert_eq!(req.body().as_str(), "\u{fffd}rest");
}

#[test]
fn parse_trims_header_whitespace() {
    let req = Request::parse(b"GET / HTTP/1.1\r\n  Key  :  value  \r\n\r\n").unwrap();
    assert_eq!(req.header("Key"), Some("value".to_string()));
}

#[test]
fn parse_skips_lines_without_colon() {
    let req = Request::parse(b"GET / HTTP/1.1\r\nnocolonhere\r\nA: 1\r\n\r\n").unwrap();
    assert_eq!(req.headers().len(), 1);
    assert_eq!(req.header("A"), Some("1".to_string()));
}

#[test]
fn parse_duplicate_header_last_wins() {
    let req = Request::parse(b"GET / HTTP/1.1\r\nA: 1\r\nA: 2\r\n\r\n").unwrap();
    assert_eq!(req.headers().len(), 1);
    assert_eq!(req.header("A"), Some("2".to_string()));
}

#[test]
fn parse_version_kept_unvalidated() {
    let req = Request::parse(b"GET / WHATEVER/9.9\r\n\r\n").unwrap();
    assert_eq!(req.path().as_str(), "/");
}

#[test]
fn parse_body_split_at_first_terminator() {
    let req = Request::parse(b"GET / HTTP/1.1\r\n\r\nfirst\r\n\r\nsecond").unwrap();
    assert_eq!(req.body().as_str(), "first\r\n\r\nsecond");
}
