use http::http_response::HttpResponse;

fn hdrs(items: &[(&str, &str)]) -> Option<Vec<(String, String)>> {
    Some(items.iter().map(|(k, v)| (k.to_string(), v.to_string())).collect())
}

#[test]
fn test_response_200() {
    let response = HttpResponse::new("200", None, Some("Body message".into()));
    assert_eq!(response.version(), "HTTP/1.1");
    assert_eq!(response.status_code(), "200");
    assert_eq!(response.status_msg(), "OK");
    assert_eq!(response.headers(), "Content-Type:text/html\r\n");
    assert_eq!(response.body(), "Body message");
}

#[test]
fn test_response_404() {
    let response = HttpResponse::new("404", None, Some("Body message".into()));
    assert_eq!(response.version(), "HTTP/1.1");
    assert_eq!(response.status_code(), "404");
    assert_eq!(response.status_msg(), "Not Found");
    assert_eq!(response.headers(), "Content-Type:text/html\r\n");
    assert_eq!(response.body(), "Body message");
}

#[test]
fn test_http_response_full() {
    let response = "HTTP/1.1 404 Not Found\r\nContent-Type:text/html\r\nContent-Length: 12\r\n\r\nBody message";
    let response_expected = HttpResponse::new("404", None, Some("Body message".into()));
    let http_string: String = response_expected.to_wire();
    assert_eq!(http_string, response);
}

#[test]
fn status_messages_follow_the_table() {
    assert_eq!(HttpResponse::new("200", None, None).status_msg(), "OK");
    assert_eq!(HttpResponse::new("400", None, None).status_msg(), "Bad Request");
    assert_eq!(HttpResponse::new("404", None, None).status_msg(), "Not Found");
    assert_eq!(HttpResponse::new("500", None, None).status_msg(), "Internal Server Error");
    assert_eq!(HttpResponse::new("418", None, None).status_msg(), "Unreachable");
    assert_eq!(HttpResponse::new("", None, None).status_msg(), "Unreachable");
}

#[test]
fn content_length_of_empty_body_is_zero() {
    let r = HttpResponse::new("200", None, None);
    assert_eq!(r.body(), "");
    assert_eq!(
        r.to_wire(),
        "HTTP/1.1 200 OK\r\nContent-Type:text/html\r\nContent-Length: 0\r\n\r\n"
    );
}

#[test]
fn content_length_counts_bytes_not_characters() {
    let r = HttpResponse::new("200", hdrs(&[]), Some("héllo €".into()));
    assert_eq!(r.to_wire(), "HTTP/1.1 200 OK\r\nContent-Length: 10\r\n\r\nhéllo €");
}

#[test]
fn content_length_of_long_body() {
    let body = "x".repeat(1234);
    let r = HttpResponse::new("200", None, Some(body.clone()));
    let wire = r.to_wire();
    assert!(wire.contains("\r\nContent-Length: 1234\r\n\r\n"));
    assert!(wire.ends_with(&body));
}

#[test]
fn not_found_scenario_serialises_exactly() {
    let r = HttpResponse::new("404", None, Some("Not Found".into()));
    assert_eq!(
        r.to_wire(),
        "HTTP/1.1 404 Not Found\r\nContent-Type:text/html\r\nContent-Length: 9\r\n\r\nNot Found"
    );
}

#[test]
fn every_header_is_serialised() {
    let r = HttpResponse::new("200", hdrs(&[("A:", "1"), ("B:", "2")]), None);
    let wire = r.to_wire();
    assert!(wire.contains("A:1\r\n"));
    assert!(wire.contains("B:2\r\n"));
    assert_eq!(wire, "HTTP/1.1 200 OK\r\nA:1\r\nB:2\r\nContent-Length: 0\r\n\r\n");
}

#[test]
fn repeated_header_name_keeps_last_value_in_first_place() {
    let r = HttpResponse::new("200", hdrs(&[("A:", "1"), ("B:", "2"), ("A:", "3")]), None);
    assert_eq!(r.headers(), "A:3\r\nB:2\r\n");
}

#[test]
fn send_response_appends_utf8_bytes() {
    let r = HttpResponse::new("500", None, Some("ä".into()));
    let mut out = b"prefix|".to_vec();
    r.send_response(&mut out);
    let mut expected = b"prefix|".to_vec();
    expected.extend_from_slice(
        "HTTP/1.1 500 Internal Server Error\r\nContent-Type:text/html\r\nContent-Length: 2\r\n\r\nä"
            .as_bytes(),
    );
    assert_eq!(out, expected);
}
