//! A small HTTP/1.x stack: request parsing, response building and
//! serialisation, and the routing decisions of a tiny web server.
pub mod handler;
pub mod headers;
pub mod http_request;
pub mod http_response;
pub mod router;
pub mod server;
pub mod text;
