use minihttp::response::IntoResponse;
use minihttp::response::Response;
use minihttp::response::StatusCode;

#[test]
fn injected_headers_always_present() {
    let r = Response::new(StatusCode::OK, Vec::new(), b"hello".to_vec());
    assert_eq!(r.header("Content-Length"), Some("5".to_string()));
    assert_eq!(r.header("Connection"), Some("close".to_string()));
}

#[test]
fn injected_headers_override_caller_values() {
    let hs = vec![
        ("Content-Length".to_string(), "9999".to_string()),
        ("Connection".to_string(), "keep-alive".to_string()),
        ("X-Custom".to_string(), "yes".to_string()),
    ];
    let r = Response::new(StatusCode::Created, hs, b"abc".to_vec());
    assert_eq!(r.header("Content-Length"), Some("3".to_string()));
    assert_eq!(r.header("Connection"), Some("close".to_string()));
    assert_eq!(r.header("X-Custom"), Some("yes".to_string()));
    assert_eq!(r.headers().len(), 3);
}

#[test]
fn serialize_exact_bytes() {
    let r = Response::new(StatusCode::OK, Vec::new(), b"hi".to_vec());
    let bytes = r.to_bytes();
    let expected = b"HTTP/1.1 200 OK\r\nContent-Length: 2\r\nConnection: close\r\n\r\nhi";
    assert_eq!(bytes.as_slice(), &expected[..]);
}

#[test]
fn serialize_keeps_body_verbatim() {
    let r = Response::new(StatusCode::OK, Vec::new(), vec![0u8, 255u8, 13u8, 10u8]);
    let bytes = r.to_bytes();
    assert!(bytes.ends_with(&[0u8, 255u8, 13u8, 10u8]));
    assert_eq!(r.header("Content-Length"), Some("4".to_string()));
}

#[test]
fn serialized_stream_contains_injected_headers() {
    let hs = vec![("Content-Length".to_string(), "1".to_string())];
    let r = Response::new(StatusCode::NotFound, hs, b"Not found".to_vec());
    let bytes = r.to_bytes();
    let text = String::from_utf8(bytes).expect("head and body are ASCII here");
    assert!(text.contains("Content-Length: 9\r\n"));
    assert!(text.contains("Connection: close\r\n"));
    assert!(!text.contains("Content-Length: 1\r\n"));
    assert!(text.starts_with("HTTP/1.1 404 Not Found\r\n"));
    assert!(text.ends_with("\r\n\r\nNot found"));
}

#[test]
fn status_codes_and_reasons() {
    assert_eq!(StatusCode::OK.code(), 200);
    assert_eq!(StatusCode::Created.code(), 201);
    assert_eq!(StatusCode::Accepted.code(), 202);
    assert_eq!(StatusCode::MovedPermanently.code(), 301);
    assert_eq!(StatusCode::Found.code(), 302);
    assert_eq!(StatusCode::NotModified.code(), 304);
    assert_eq!(StatusCode::BadRequest.code(), 400);
    assert_eq!(StatusCode::Unauthorized.code(), 401);
    assert_eq!(StatusCode::PaymentRequired.code(), 402);
    assert_eq!(StatusCode::Forbidden.code(), 403);
    assert_eq!(StatusCode::NotFound.code(), 404);
    assert_eq!(StatusCode::InternalServerError.code(), 500);
    assert_eq!(StatusCode::OK.as_str(), "OK");
    assert_eq!(StatusCode::BadRequest.as_str(), "Bad Request");
    assert_eq!(StatusCode::NotFound.as_str(), "Not Found");
    assert_eq!(StatusCode::InternalServerError.as_str(), "Internal Server Error");
}

#[test]
fn into_response_shapes() {
    let a = (StatusCode::OK, "hi".to_string()).into_response();
    assert_eq!(*a.status(), StatusCode::OK);
    assert_eq!(a.body(), &b"hi"[..]);

    let b = (StatusCode::BadRequest, "oops").into_response();
    assert_eq!(*b.status(), StatusCode::BadRequest);
    assert_eq!(b.body(), &b"oops"[..]);
    assert_eq!(b.header("Content-Length"), Some("4".to_string()));

    let c = ("plain").into_response();
    assert_eq!(*c.status(), StatusCode::OK);
    assert_eq!(c.body(), &b"plain"[..]);
}

#[test]
fn empty_body_has_zero_content_length() {
    let r = Response::new(StatusCode::OK, Vec::new(), Vec::new());
    assert_eq!(r.header("Content-Length"), Some("0".to_string()));
    let bytes = r.to_bytes();
    assert_eq!(
        bytes.as_slice(),
        &b"HTTP/1.1 200 OK\r\nContent-Length: 0\r\nConnection: close\r\n\r\n"[..]
    );
}
