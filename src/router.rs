//! Dispatch of a request to a handler by its method and path.
use vstd::prelude::*;
use crate::handler::Handler;
use crate::http_request::{HttpRequest, Method, RequestView, Resource};
use crate::text::{lemma_pieces_step, nth_piece, piece, pieces_from, same_text};

verus! {

/// The handler for a request: anything but GET is not found; a GET whose
/// first path segment is `api` goes to the web service, any other GET to
/// the static pages.
pub open spec fn route_of(req: RequestView) -> Handler {
    if req.method != Method::GET {
        Handler::PageNotFound
    } else if piece(req.path, '/', 1) == Some("api"@) {
        Handler::WebService
    } else {
        Handler::StaticPage
    }
}

/// Routing looks at the method and the first path segment alone: any
/// method but GET goes to the not-found handler whatever the path; a GET of
/// a path under `/api/` goes to the web service; a GET whose first segment
/// is not `api` goes to the static pages.
pub proof fn lemma_routing(req: RequestView, rest: Seq<char>)
    ensures
        req.method != Method::GET ==> route_of(req) == Handler::PageNotFound,
        req.method == Method::GET && piece(req.path, '/', 1) != Some("api"@) ==> route_of(req)
            == Handler::StaticPage,
        req.method == Method::GET && req.path == "/api/"@ + rest ==> route_of(req)
            == Handler::WebService,
{
    if req.path == "/api/"@ + rest {
        reveal_strlit("/api/");
        reveal_strlit("api");
        let p = req.path;
        assert(p[0] == '/' && p[1] == 'a' && p[2] == 'p' && p[3] == 'i' && p[4] == '/');
        lemma_pieces_step(p, '/', 0, 0);
        lemma_pieces_step(p, '/', 1, 3);
        assert(p.subrange(1, 4) =~= "api"@);
        assert(pieces_from(p, '/', 0)[1] == pieces_from(p, '/', 1)[0]);
    }
}

pub struct Router;

impl Router {
    /// Chooses the handler for `req`.
    pub fn route(req: &HttpRequest) -> (r: Handler)
        ensures
            r == route_of(req@),
    {
        match req.method {
            Method::GET => {
                let Resource::Path(p) = &req.resource;
                match nth_piece(p.as_str(), '/', 1) {
                    Some(s) => if same_text(s.as_str(), "api") {
                        Handler::WebService
                    } else {
                        Handler::StaticPage
                    },
                    None => Handler::StaticPage,
                }
            },
            _ => Handler::PageNotFound,
        }
    }
}

} // verus!
