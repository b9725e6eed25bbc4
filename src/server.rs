//! The connection side of the web server: its configuration, and the
//! request, or the refusal, that the bytes read from a connection make.
use vstd::prelude::*;
use vstd::string::*;
use vstd::utf8::{decode_utf8, encode_utf8_decode_utf8, encode_utf8_valid_utf8, valid_utf8};
use crate::http_request::{parse_request, HttpRequest, ParseError, RequestView};
use crate::http_response::{built, HttpResponse, ResponseView};

verus! {

/// The most bytes read from one connection. A request that fills the whole
/// buffer may have been cut short, so it is refused rather than parsed.
pub const MAX_REQUEST_BYTES: usize = 8192;

/// Whether the bytes hold a blank line, the end of a request's headers:
/// a line feed followed by another, or by a carriage return and a line feed.
pub open spec fn has_blank_line(b: Seq<u8>) -> bool {
    exists|i: int|
        0 <= i && i + 1 < b.len() && #[trigger] b[i] == 10u8 && (b[i + 1] == 10u8 || (i + 2 < b.len()
            && b[i + 1] == 13u8 && b[i + 2] == 10u8))
}

/// The answer to a request that could not be read.
pub open spec fn bad_request_response() -> ResponseView {
    built("400"@, None, Some("Bad Request"@))
}

/// Relies on `std::str::from_utf8`: it fails exactly on byte sequences
/// that are not well-formed UTF-8, and otherwise returns the text whose
/// UTF-8 encoding is those bytes.
#[verifier::external_body]
fn utf8_text(b: &[u8]) -> (r: Option<&str>)
    ensures
        match r {
            Some(s) => s.spec_bytes() == b@,
            None => !valid_utf8(b@),
        },
{
    std::str::from_utf8(b).ok()
}

/// A server listening on one address, `host:port`.
pub struct Server {
    socket: String,
}

impl View for Server {
    type V = Seq<char>;

    closed spec fn view(&self) -> Seq<char> {
        self.socket@
    }
}

impl Server {
    pub fn new(socket: &str) -> (r: Server)
        ensures
            r@ == socket@,
    {
        Server { socket: String::from_str(socket) }
    }

    /// The address the server listens on.
    pub fn socket(&self) -> (r: &str)
        ensures
            r@ == self@,
    {
        self.socket.as_str()
    }

    /// The answer to a request that could not be read: not UTF-8, too
    /// large, or with a malformed request line.
    pub fn bad_request() -> (r: HttpResponse)
        ensures
            r@ == bad_request_response(),
    {
        HttpResponse::new("400", None, Some(String::from_str("Bad Request")))
    }

    /// Whether reading from a connection should stop with the bytes
    /// `received` so far: the headers have ended, or the buffer of
    /// `MAX_REQUEST_BYTES` is full.
    pub fn read_done(received: &[u8]) -> (r: bool)
        ensures
            r == (received@.len() >= MAX_REQUEST_BYTES || has_blank_line(received@)),
    {
        let n = received.len();
        if n >= MAX_REQUEST_BYTES {
            return true;
        }
        if n == 0 {
            return false;
        }
        let mut i: usize = 0;
        while i < n - 1
            invariant
                0 < n == received@.len(),
                forall|k: int|
                    0 <= k < i && k + 1 < n ==> !(#[trigger] received@[k] == 10u8 && (received@[k + 1]
                        == 10u8 || (k + 2 < n && received@[k + 1] == 13u8 && received@[k + 2]
                        == 10u8))),
            decreases n - i,
        {
            if received[i] == 10u8 {
                if received[i + 1] == 10u8 {
                    return true;
                }
                if i + 2 < n && received[i + 1] == 13u8 && received[i + 2] == 10u8 {
                    return true;
                }
            }
            i = i + 1;
        }
        false
    }

    /// The request in the bytes read into a buffer of
    /// `MAX_REQUEST_BYTES`, or the 400 response when there is none: the read
    /// filled the whole buffer (the request may have been cut short), the
    /// bytes are not UTF-8, or the text has a malformed request line.
    pub fn read_request(bytes: &[u8]) -> (r: Result<HttpRequest, HttpResponse>)
        ensures
            match r {
                Ok(req) => {
                    &&& bytes@.len() < MAX_REQUEST_BYTES
                    &&& valid_utf8(bytes@)
                    &&& parse_request(decode_utf8(bytes@)) == Ok::<RequestView, ParseError>(req@)
                },
                Err(resp) => {
                    &&& resp@ == bad_request_response()
                    &&& (bytes@.len() >= MAX_REQUEST_BYTES || !valid_utf8(bytes@) || parse_request(
                        decode_utf8(bytes@),
                    ) is Err)
                },
            },
    {
        if bytes.len() >= MAX_REQUEST_BYTES {
            return Err(Self::bad_request());
        }
        match utf8_text(bytes) {
            None => Err(Self::bad_request()),
            Some(text) => {
                proof {
                    encode_utf8_decode_utf8(text@);
                    encode_utf8_valid_utf8(text@);
                }
                match HttpRequest::parse(text) {
                    Ok(req) => Ok(req),
                    Err(_) => Err(Self::bad_request()),
                }
            },
        }
    }
}

} // verus!
