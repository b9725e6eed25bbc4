//! The request handlers of the web server. A handler answers in two steps:
//! it first names what it needs read from outside (a page of the content
//! root, or the order list as JSON), then builds its response from what was
//! read, or finds that the request is not found. Only then does the caller
//! read the not-found page. Reading is left to the caller; every decision is
//! made here.
use vstd::prelude::*;
use vstd::string::*;
use crate::headers::pairs_view;
use crate::http_request::{HttpRequest, RequestView, Resource};
use crate::http_response::{built, opt_text, HttpResponse, ResponseView};
use crate::text::{ends_with, has_suffix, nth_piece, piece, same_text};

verus! {

/// The handlers that a request can be dispatched to.
#[derive(Debug, PartialEq, Eq, Structural, Clone, Copy)]
pub enum Handler {
    StaticPage,
    WebService,
    PageNotFound,
}

/// What a handler needs read before it can answer.
#[derive(Debug, PartialEq, Eq)]
pub enum Fetch {
    /// A file of the content root, by name.
    File(String),
    /// The order list, serialised as JSON.
    Orders,
    /// Nothing.
    Nothing,
}

/// Serves the pages of the content root.
pub struct StaticPage;

/// Answers with the not-found page.
pub struct PageNotFound;

/// Serves the order list under `/api/shipping/orders`.
pub struct WebService;

/// The file a static request asks for: `index.html` for the root,
/// `test.html` for `/test`, otherwise the first segment of the path.
pub open spec fn static_file(path: Seq<char>) -> Option<Seq<char>> {
    match piece(path, '/', 1) {
        Some(s) => if s == ""@ {
            Some("index.html"@)
        } else if s == "test"@ {
            Some("test.html"@)
        } else {
            Some(s)
        },
        None => None,
    }
}

/// The media type of a file, by its extension.
pub open spec fn content_type(name: Seq<char>) -> Seq<char> {
    if ends_with(name, ".css"@) {
        "text/css"@
    } else if ends_with(name, ".js"@) {
        "text/javascript"@
    } else {
        "text/html"@
    }
}

/// The not-found response, with the not-found page as body if it could be
/// read.
pub open spec fn not_found_response(page: Option<Seq<char>>) -> ResponseView {
    built("404"@, None, page)
}

/// The answer to a static request, given the content of the file it asks
/// for; `None` when the request is not found.
pub open spec fn static_response(path: Seq<char>, content: Option<Seq<char>>) -> Option<ResponseView> {
    match (static_file(path), content) {
        (Some(f), Some(c)) => Some(
            built("200"@, Some(seq![("Content-Type:"@, content_type(f))]), Some(c)),
        ),
        _ => None,
    }
}

/// Whether the path names the order list: its second and third segments
/// are `shipping` and `orders`.
pub open spec fn serves_orders(path: Seq<char>) -> bool {
    piece(path, '/', 2) == Some("shipping"@) && piece(path, '/', 3) == Some("orders"@)
}

/// The answer of the web service, given the order list as JSON, if it
/// could be had; `None` when the request is not found.
pub open spec fn orders_response(path: Seq<char>, json: Option<Seq<char>>) -> Option<ResponseView> {
    if serves_orders(path) {
        match json {
            Some(j) => Some(
                built("200"@, Some(seq![("Content-Type:"@, "application/json"@)]), Some(j)),
            ),
            None => Some(built("500"@, None, None)),
        }
    } else {
        None
    }
}

/// The answer of handler `h` to a request; `None` when the request is not
/// found, to be answered with the not-found page.
pub open spec fn handler_response(h: Handler, req: RequestView, fetched: Option<Seq<char>>) -> Option<
    ResponseView,
> {
    match h {
        Handler::StaticPage => static_response(req.path, fetched),
        Handler::WebService => orders_response(req.path, fetched),
        Handler::PageNotFound => None,
    }
}

/// What an optional response holds.
pub open spec fn opt_response(r: &Option<HttpResponse>) -> Option<ResponseView> {
    match r {
        Some(x) => Some(x@),
        None => None,
    }
}

/// A one-header list naming the media type.
fn content_type_header(media: String) -> (r: Vec<(String, String)>)
    ensures
        r@.len() == 1,
        r@[0].0@ == "Content-Type:"@,
        r@[0].1@ == media@,
{
    let mut h: Vec<(String, String)> = Vec::new();
    h.push((String::from_str("Content-Type:"), media));
    h
}

impl PageNotFound {
    /// The name of the not-found page in the content root.
    pub fn file() -> (r: String)
        ensures
            r@ == "404.html"@,
    {
        String::from_str("404.html")
    }

    /// A 404 response with the not-found page, if it could be read, as body.
    pub fn handle(page: Option<String>) -> (r: HttpResponse)
        ensures
            r@ == not_found_response(opt_text(&page)),
    {
        HttpResponse::new("404", None, page)
    }
}

impl StaticPage {
    /// The file that the request asks for, if its path has a first segment.
    pub fn file(req: &HttpRequest) -> (r: Option<String>)
        ensures
            opt_text(&r) == static_file(req@.path),
    {
        let path = match &req.resource {
            Resource::Path(p) => p,
        };
        match nth_piece(path.as_str(), '/', 1) {
            Some(s) => {
                if same_text(s.as_str(), "") {
                    proof {
                        reveal_strlit("");
                    }
                    Some(String::from_str("index.html"))
                } else if same_text(s.as_str(), "test") {
                    Some(String::from_str("test.html"))
                } else {
                    Some(s)
                }
            },
            None => None,
        }
    }

    /// The media type of the file `name`.
    pub fn content_type(name: &str) -> (r: String)
        ensures
            r@ == content_type(name@),
    {
        if has_suffix(name, ".css") {
            String::from_str("text/css")
        } else if has_suffix(name, ".js") {
            String::from_str("text/javascript")
        } else {
            String::from_str("text/html")
        }
    }

    /// The answer to a static request, given the content of the file that
    /// `file` named; `None` when the request is not found.
    pub fn handle(req: &HttpRequest, content: Option<String>) -> (r: Option<HttpResponse>)
        ensures
            opt_response(&r) == static_response(req@.path, opt_text(&content)),
    {
        match (Self::file(req), content) {
            (Some(f), Some(c)) => {
                let media = Self::content_type(f.as_str());
                let h = content_type_header(media);
                let ghost hv = seq![("Content-Type:"@, content_type(f@))];
                assert(pairs_view(h@) =~= hv);
                Some(HttpResponse::new("200", Some(h), Some(c)))
            },
            _ => None,
        }
    }
}

impl WebService {
    /// Whether the request asks for the order list.
    pub fn serves_orders(req: &HttpRequest) -> (r: bool)
        ensures
            r == serves_orders(req@.path),
    {
        let path = match &req.resource {
            Resource::Path(p) => p,
        };
        let second = nth_piece(path.as_str(), '/', 2);
        let third = nth_piece(path.as_str(), '/', 3);
        match (second, third) {
            (Some(a), Some(b)) => same_text(a.as_str(), "shipping") && same_text(b.as_str(), "orders"),
            _ => false,
        }
    }

    /// The answer of the web service, given the order list as JSON, if it
    /// could be had; `None` when the request is not found.
    pub fn handle(req: &HttpRequest, json: Option<String>) -> (r: Option<HttpResponse>)
        ensures
            opt_response(&r) == orders_response(req@.path, opt_text(&json)),
    {
        if Self::serves_orders(req) {
            match json {
                Some(j) => {
                    let h = content_type_header(String::from_str("application/json"));
                    let ghost hv = seq![("Content-Type:"@, "application/json"@)];
                    assert(pairs_view(h@) =~= hv);
                    Some(HttpResponse::new("200", Some(h), Some(j)))
                },
                None => Some(HttpResponse::new("500", None, None)),
            }
        } else {
            None
        }
    }
}

impl Handler {
    /// What the handler needs read to answer the request.
    pub fn fetch(&self, req: &HttpRequest) -> (r: Fetch)
        ensures
            match r {
                Fetch::File(f) => *self == Handler::StaticPage && static_file(req@.path) == Some(f@),
                Fetch::Orders => *self == Handler::WebService && serves_orders(req@.path),
                Fetch::Nothing => match *self {
                    Handler::StaticPage => static_file(req@.path) is None,
                    Handler::WebService => !serves_orders(req@.path),
                    Handler::PageNotFound => true,
                },
            },
    {
        match self {
            Handler::StaticPage => match StaticPage::file(req) {
                Some(f) => Fetch::File(f),
                None => Fetch::Nothing,
            },
            Handler::WebService => if WebService::serves_orders(req) {
                Fetch::Orders
            } else {
                Fetch::Nothing
            },
            Handler::PageNotFound => Fetch::Nothing,
        }
    }

    /// The handler's answer, given what `fetch` asked for (`None` when it
    /// asked for nothing or it could not be read); `None` when the request
    /// is not found and is to be answered by `PageNotFound::handle`.
    pub fn respond(&self, req: &HttpRequest, fetched: Option<String>) -> (r: Option<HttpResponse>)
        ensures
            opt_response(&r) == handler_response(*self, req@, opt_text(&fetched)),
    {
        match self {
            Handler::StaticPage => StaticPage::handle(req, fetched),
            Handler::WebService => WebService::handle(req, fetched),
            Handler::PageNotFound => None,
        }
    }
}

} // verus!
