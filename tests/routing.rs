use http::handler::{Fetch, Handler, PageNotFound, StaticPage, WebService};
use http::http_request::HttpRequest;
use http::router::Router;
use http::server::{Server, MAX_REQUEST_BYTES};

fn request(text: &str) -> HttpRequest {
    HttpRequest::parse(text).unwrap()
}

#[test]
fn api_path_routes_to_web_service() {
    let req = request("GET /api/shipping/orders HTTP/1.1\r\n\r\n");
    assert_eq!(Router::route(&req), Handler::WebService);
    assert_eq!(Handler::WebService.fetch(&req), Fetch::Orders);
}

#[test]
fn other_get_paths_route_to_static_pages() {
    for path in ["/anything-else", "/", "/test", "/style.css", "/apix/y"] {
        let req = request(&format!("GET {path} HTTP/1.1\r\n\r\n"));
        assert_eq!(Router::route(&req), Handler::StaticPage, "{path}");
    }
}

#[test]
fn non_get_routes_to_not_found() {
    for text in [
        "POST /api/shipping/orders HTTP/1.1\r\n\r\n",
        "POST / HTTP/1.1\r\n\r\n",
        "PUT /index.html HTTP/1.1\r\n\r\n",
    ] {
        assert_eq!(Router::route(&request(text)), Handler::PageNotFound);
    }
}

#[test]
fn static_files_by_path() {
    assert_eq!(StaticPage::file(&request("GET / HTTP/1.1")), Some("index.html".to_string()));
    assert_eq!(StaticPage::file(&request("GET /test HTTP/1.1")), Some("test.html".to_string()));
    assert_eq!(StaticPage::file(&request("GET /app.js HTTP/1.1")), Some("app.js".to_string()));
    assert_eq!(StaticPage::file(&request("GET x HTTP/1.1")), None);
}

#[test]
fn static_content_types() {
    assert_eq!(StaticPage::content_type("a.css"), "text/css");
    assert_eq!(StaticPage::content_type("a.js"), "text/javascript");
    assert_eq!(StaticPage::content_type("a.html"), "text/html");
    assert_eq!(StaticPage::content_type("js"), "text/html");
}

#[test]
fn static_page_found_and_missing() {
    let req = request("GET /style.css HTTP/1.1");
    let r = StaticPage::handle(&req, Some("body{}".into())).unwrap();
    assert_eq!(r.to_wire(), "HTTP/1.1 200 OK\r\nContent-Type:text/css\r\nContent-Length: 6\r\n\r\nbody{}");
    assert!(StaticPage::handle(&req, None).is_none());
    let r = PageNotFound::handle(Some("nope".into()));
    assert_eq!(r.to_wire(), "HTTP/1.1 404 Not Found\r\nContent-Type:text/html\r\nContent-Length: 4\r\n\r\nnope");
    assert!(StaticPage::handle(&request("GET x HTTP/1.1"), Some("x".into())).is_none());
}

#[test]
fn web_service_answers() {
    let req = request("GET /api/shipping/orders HTTP/1.1");
    let r = WebService::handle(&req, Some("[]".into())).unwrap();
    assert_eq!(r.to_wire(), "HTTP/1.1 200 OK\r\nContent-Type:application/json\r\nContent-Length: 2\r\n\r\n[]");
    let r = WebService::handle(&req, None).unwrap();
    assert_eq!(r.status_code(), "500");
    assert_eq!(r.body(), "");
    let other = request("GET /api/other HTTP/1.1");
    assert!(!WebService::serves_orders(&other));
    assert_eq!(Handler::WebService.fetch(&other), Fetch::Nothing);
    assert!(WebService::handle(&other, Some("[]".into())).is_none());
    assert!(Handler::WebService.respond(&other, None).is_none());
}

#[test]
fn not_found_handler() {
    assert_eq!(PageNotFound::file(), "404.html");
    let req = request("POST / HTTP/1.1");
    assert_eq!(Handler::PageNotFound.fetch(&req), Fetch::Nothing);
    assert!(Handler::PageNotFound.respond(&req, Some("x".into())).is_none());
    let r = PageNotFound::handle(Some("missing".into()));
    assert_eq!(r.status_code(), "404");
    assert_eq!(r.body(), "missing");
    assert_eq!(PageNotFound::handle(None).body(), "");
}

#[test]
fn server_configuration() {
    let s = Server::new("localhost:8080");
    assert_eq!(s.socket(), "localhost:8080");
    assert_eq!(
        Server::bad_request().to_wire(),
        "HTTP/1.1 400 Bad Request\r\nContent-Type:text/html\r\nContent-Length: 11\r\n\r\nBad Request"
    );
}

#[test]
fn read_request_accepts_a_whole_request() {
    let req = Server::read_request(b"GET /test HTTP/1.1\r\nHost: x\r\n\r\n").unwrap();
    assert_eq!(req.resource, http::http_request::Resource::Path("/test".into()));
    assert_eq!(req.header("Host"), Some(" x".to_string()));
}

#[test]
fn read_request_refuses_a_full_buffer() {
    let mut bytes = b"GET / HTTP/1.1\r\n".to_vec();
    bytes.resize(MAX_REQUEST_BYTES, b'a');
    let refusal = Server::read_request(&bytes).unwrap_err();
    assert_eq!(refusal.status_code(), "400");
    bytes.truncate(MAX_REQUEST_BYTES - 1);
    assert!(Server::read_request(&bytes).is_ok());
}

#[test]
fn read_request_refuses_invalid_utf8() {
    let refusal = Server::read_request(b"GET / HTTP/1.1\r\n\xff\xfe\r\n").unwrap_err();
    assert_eq!(refusal.status_msg(), "Bad Request");
    assert_eq!(refusal.body(), "Bad Request");
}

#[test]
fn read_request_refuses_malformed_request_line() {
    let refusal = Server::read_request(b"GET HTTP/1.1\r\n\r\n").unwrap_err();
    assert_eq!(refusal.status_code(), "400");
}

#[test]
fn read_request_decodes_multibyte_text() {
    let req = Server::read_request("POST /é HTTP/1.1\r\n\r\nçava".as_bytes()).unwrap();
    assert_eq!(req.resource, http::http_request::Resource::Path("/é".into()));
    assert_eq!(req.body, "çava");
}

#[test]
fn read_done_stops_at_blank_line_or_full_buffer() {
    assert!(!Server::read_done(b""));
    assert!(!Server::read_done(b"GET / HTTP/1.1\r\nHost: x\r\n"));
    assert!(Server::read_done(b"GET / HTTP/1.1\r\nHost: x\r\n\r\n"));
    assert!(Server::read_done(b"GET / HTTP/1.1\n\n"));
    assert!(!Server::read_done(b"GET / HTTP/1.1\r\r\n"));
    assert!(Server::read_done(&vec![b'a'; MAX_REQUEST_BYTES]));
    assert!(!Server::read_done(&vec![b'a'; MAX_REQUEST_BYTES - 1]));
}
