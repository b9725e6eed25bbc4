use std::collections::HashMap;

use http::http_request::{HttpRequest, Method, ParseError, Resource, Version};

fn header_map(req: &HttpRequest) -> HashMap<String, String> {
    req.headers.iter().cloned().collect()
}

#[test]
fn test_method_into() {
    let method: Method = "GET".into();
    assert_eq!(method, Method::GET);
}

#[test]
fn test_version_int() {
    let version: Version = "HTTP/1.1".into();
    assert_eq!(version, Version::V1_1);
}

#[test]
fn test_read_http() {
    let req = String::from(
        "GET /test HTTP/1.1\r\nHost: localhost:8080\r\nUser-Agent: xh\r\nAccept: */*\r\n\r\n",
    );
    let mut expected_headers = HashMap::new();
    expected_headers.insert("Host".to_string(), " localhost:8080".to_string());
    expected_headers.insert("Accept".to_string(), " */*".to_string());
    expected_headers.insert("User-Agent".to_string(), " xh".to_string());
    let req: HttpRequest = HttpRequest::parse(&req).unwrap();
    assert_eq!(Method::GET, req.method);
    assert_eq!(Version::V1_1, req.version);
    assert_eq!(Resource::Path("/test".into()), req.resource);
    assert_eq!(expected_headers, header_map(&req));
}

#[test]
fn other_methods_and_versions() {
    let m: Method = "POST".into();
    assert_eq!(m, Method::POST);
    let m: Method = "DELETE".into();
    assert_eq!(m, Method::Unitialized);
    let m: Method = "get".into();
    assert_eq!(m, Method::Unitialized);
    let v: Version = "HTTP/2.0".into();
    assert_eq!(v, Version::V2_0);
    let v: Version = "HTTP/1.0".into();
    assert_eq!(v, Version::Unitialized);
}

#[test]
fn parse_minimal_get() {
    let req = HttpRequest::parse("GET /test HTTP/1.1\r\nHost: localhost:8080\r\n\r\n").unwrap();
    assert_eq!(req.method, Method::GET);
    assert_eq!(req.version, Version::V1_1);
    assert_eq!(req.resource, Resource::Path("/test".into()));
    assert_eq!(req.headers, vec![("Host".to_string(), " localhost:8080".to_string())]);
    assert_eq!(req.header("Host"), Some(" localhost:8080".to_string()));
    assert_eq!(req.header("host"), None);
    assert_eq!(req.body, "");
}

#[test]
fn trailing_nul_padding_is_ignored() {
    let mut raw = String::from("POST /orders HTTP/2.0\r\nA: 1\r\n\r\nhello");
    raw.push_str(&"\0".repeat(40));
    let req = HttpRequest::parse(&raw).unwrap();
    assert_eq!(req.method, Method::POST);
    assert_eq!(req.version, Version::V2_0);
    assert_eq!(req.body, "hello");
    assert_eq!(req.header("A"), Some(" 1".to_string()));
}

#[test]
fn last_body_line_wins_and_lf_endings_work() {
    let req = HttpRequest::parse("GET / HTTP/1.1\nfirst\n\nsecond\n").unwrap();
    assert_eq!(req.resource, Resource::Path("/".into()));
    assert_eq!(req.body, "second");
    assert!(req.headers.is_empty());
}

#[test]
fn repeated_header_keeps_last_value() {
    let req = HttpRequest::parse("GET / HTTP/1.1\r\nX: a\r\nY: b\r\nX: c\r\n\r\n").unwrap();
    assert_eq!(
        req.headers,
        vec![("X".to_string(), " c".to_string()), ("Y".to_string(), " b".to_string())]
    );
}

#[test]
fn request_line_with_two_words_is_malformed() {
    assert_eq!(
        HttpRequest::parse("GET HTTP/1.1\r\n\r\n").unwrap_err(),
        ParseError::MalformedRequestLine
    );
}

#[test]
fn request_line_with_four_words_is_malformed() {
    assert_eq!(
        HttpRequest::parse("GET / HTTP/1.1 extra\r\n\r\n").unwrap_err(),
        ParseError::MalformedRequestLine
    );
}

#[test]
fn unknown_method_is_not_an_error() {
    let req = HttpRequest::parse("BREW /pot HTTP/1.1\r\n\r\n").unwrap();
    assert_eq!(req.method, Method::Unitialized);
    assert_eq!(req.version, Version::V1_1);
}

#[test]
fn empty_text_gives_empty_request() {
    let req = HttpRequest::parse("").unwrap();
    assert_eq!(req.method, Method::Unitialized);
    assert_eq!(req.version, Version::Unitialized);
    assert_eq!(req.resource, Resource::Path("".into()));
    assert!(req.headers.is_empty());
    assert_eq!(req.body, "");
}

#[test]
fn request_line_splits_at_unicode_white_space() {
    let req = HttpRequest::parse("GET\u{a0}/x\u{3000}HTTP/1.1\r\n\r\n").unwrap();
    assert_eq!(req.method, Method::GET);
    assert_eq!(req.resource, Resource::Path("/x".into()));
    assert_eq!(req.version, Version::V1_1);
    let req = HttpRequest::parse("a b\u{a0} c HTTP\r\n").unwrap_err();
    assert_eq!(req, ParseError::MalformedRequestLine);
    let req = HttpRequest::parse("a b\u{a0} HTTP\r\n").unwrap();
    assert_eq!(req.resource, Resource::Path("b".into()));
    assert_eq!(
        HttpRequest::parse("GET / HTTP/1.1\u{2009}d\r\n").unwrap_err(),
        ParseError::MalformedRequestLine
    );
}

#[test]
fn header_value_keeps_later_colons() {
    let req = HttpRequest::parse("GET / HTTP/1.1\r\nX-Time: 12:30:00\r\n\r\n").unwrap();
    assert_eq!(req.headers.len(), 1);
    assert_eq!(req.header("X-Time"), Some(" 12:30:00".to_string()));
}
