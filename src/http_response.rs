//! HTTP responses: built from a status code, optional headers and an
//! optional body, and serialised to the wire format.
use vstd::prelude::*;
use vstd::string::*;
use vstd::utf8::encode_utf8;
use crate::headers::{insert_header, keys_unique, lemma_put_all_unique, pairs_view, put_all};
use crate::text::{contains, decimal, digits_value, lemma_decimal_value, push_decimal, same_text};

verus! {

/// What a response holds, as character sequences.
pub struct ResponseView {
    pub version: Seq<char>,
    pub status_code: Seq<char>,
    pub status_msg: Seq<char>,
    pub headers: Seq<(Seq<char>, Seq<char>)>,
    pub body: Seq<char>,
}

/// The reason phrase that goes with a status code.
pub open spec fn status_text(code: Seq<char>) -> Seq<char> {
    if code == "200"@ {
        "OK"@
    } else if code == "400"@ {
        "Bad Request"@
    } else if code == "404"@ {
        "Not Found"@
    } else if code == "500"@ {
        "Internal Server Error"@
    } else {
        "Unreachable"@
    }
}

/// The header list of a response built without headers.
pub open spec fn default_headers() -> Seq<(Seq<char>, Seq<char>)> {
    seq![("Content-Type:"@, "text/html"@)]
}

/// One line per header: the name and the value as they are, then CRLF.
pub open spec fn header_block(hs: Seq<(Seq<char>, Seq<char>)>) -> Seq<char>
    decreases hs.len(),
{
    if hs.len() == 0 {
        Seq::empty()
    } else {
        header_block(hs.drop_last()) + hs.last().0 + hs.last().1 + "\r\n"@
    }
}

/// The number of bytes of `s` in UTF-8.
pub open spec fn byte_len(s: Seq<char>) -> nat {
    encode_utf8(s).len()
}

/// The status line, the headers, a `Content-Length` computed from the body,
/// a blank line and the body.
pub open spec fn wire(r: ResponseView) -> Seq<char> {
    r.version + " "@ + r.status_code + " "@ + r.status_msg + "\r\n"@ + header_block(r.headers)
        + "Content-Length: "@ + decimal(byte_len(r.body)) + "\r\n\r\n"@ + r.body
}

/// The header list of a response built with the given headers, if any.
pub open spec fn headers_given(headers: Option<Seq<(Seq<char>, Seq<char>)>>) -> Seq<
    (Seq<char>, Seq<char>),
> {
    match headers {
        Some(h) => put_all(Seq::empty(), h),
        None => default_headers(),
    }
}

/// The names and values of an optional header list.
pub open spec fn opt_pairs(h: &Option<Vec<(String, String)>>) -> Option<Seq<(Seq<char>, Seq<char>)>> {
    match h {
        Some(v) => Some(pairs_view(v@)),
        None => None,
    }
}

/// The characters of an optional string.
pub open spec fn opt_text(s: &Option<String>) -> Option<Seq<char>> {
    match s {
        Some(t) => Some(t@),
        None => None,
    }
}

/// The response that `HttpResponse::new` builds from a status code and
/// optional headers and body.
pub open spec fn built(
    code: Seq<char>,
    headers: Option<Seq<(Seq<char>, Seq<char>)>>,
    body: Option<Seq<char>>,
) -> ResponseView {
    ResponseView {
        version: "HTTP/1.1"@,
        status_code: code,
        status_msg: status_text(code),
        headers: headers_given(headers),
        body: match body {
            Some(b) => b,
            None => Seq::empty(),
        },
    }
}

/// The header lines of two lists one after the other are the lines of
/// each list in turn.
pub proof fn lemma_header_block_append(
    a: Seq<(Seq<char>, Seq<char>)>,
    b: Seq<(Seq<char>, Seq<char>)>,
)
    ensures
        header_block(a + b) == header_block(a) + header_block(b),
    decreases b.len(),
{
    if b.len() == 0 {
        assert(a + b == a);
        assert(header_block(a) + header_block(b) == header_block(a));
    } else {
        lemma_header_block_append(a, b.drop_last());
        assert((a + b).drop_last() == a + b.drop_last());
        assert((a + b).last() == b.last());
    }
}

/// The header lines of a list are those before position `i`, the line
/// of the pair at `i`, and those after it.
proof fn lemma_header_block_split(hs: Seq<(Seq<char>, Seq<char>)>, i: int)
    requires
        0 <= i < hs.len(),
    ensures
        header_block(hs) == header_block(hs.subrange(0, i)) + (hs[i].0 + hs[i].1 + "\r\n"@)
            + header_block(hs.subrange(i + 1, hs.len() as int)),
{
    let pre = hs.subrange(0, i);
    let post = hs.subrange(i + 1, hs.len() as int);
    let one = seq![hs[i]];
    assert(hs == pre + one + post);
    lemma_header_block_append(pre + one, post);
    lemma_header_block_append(pre, one);
    assert(one.drop_last() =~= Seq::<(Seq<char>, Seq<char>)>::empty());
    assert(header_block(one) == header_block(one.drop_last()) + hs[i].0 + hs[i].1 + "\r\n"@);
    assert(header_block(one) =~= hs[i].0 + hs[i].1 + "\r\n"@);
}

/// The header at position `i` of a response appears in its wire format.
proof fn lemma_header_sent(r: ResponseView, i: int)
    requires
        0 <= i < r.headers.len(),
    ensures
        contains(wire(r), r.headers[i].0 + r.headers[i].1 + "\r\n"@),
{
    let line = r.headers[i].0 + r.headers[i].1 + "\r\n"@;
    lemma_header_block_split(r.headers, i);
    let head = r.version + " "@ + r.status_code + " "@ + r.status_msg + "\r\n"@ + header_block(
        r.headers.subrange(0, i),
    );
    let tail = header_block(r.headers.subrange(i + 1, r.headers.len() as int))
        + "Content-Length: "@ + decimal(byte_len(r.body)) + "\r\n\r\n"@ + r.body;
    assert(wire(r) =~= head + line + tail);
    assert((head + line + tail).subrange(head.len() as int, (head.len() + line.len()) as int)
        =~= line);
}

/// Every header given to a response, names all different, appears in its
/// wire format as its own line: name, value, CRLF.
pub proof fn lemma_every_header_sent(
    code: Seq<char>,
    items: Seq<(Seq<char>, Seq<char>)>,
    body: Option<Seq<char>>,
)
    requires
        keys_unique(items),
    ensures
        forall|i: int|
            0 <= i < items.len() ==> contains(
                wire(built(code, Some(items), body)),
                #[trigger] items[i].0 + items[i].1 + "\r\n"@,
            ),
{
    lemma_put_all_unique(items);
    let r = built(code, Some(items), body);
    assert(r.headers == items);
    assert forall|i: int| 0 <= i < items.len() implies contains(
        wire(r),
        #[trigger] items[i].0 + items[i].1 + "\r\n"@,
    ) by {
        lemma_header_sent(r, i);
    }
}

/// The `Content-Length` of a response is a run of decimal digits that
/// denotes the number of UTF-8 bytes of its body, and the body follows the
/// blank line that ends the headers; a response without a body announces 0.
pub proof fn lemma_content_length(r: ResponseView)
    ensures
        exists|head: Seq<char>|
            wire(r) == head + "Content-Length: "@ + decimal(byte_len(r.body)) + "\r\n\r\n"@
                + r.body,
        digits_value(decimal(byte_len(r.body))) == encode_utf8(r.body).len(),
        forall|i: int|
            0 <= i < decimal(byte_len(r.body)).len() ==> '0' <= #[trigger] decimal(
                byte_len(r.body),
            )[i] <= '9',
        r.body.len() == 0 ==> decimal(byte_len(r.body)) == "0"@,
{
    let head = r.version + " "@ + r.status_code + " "@ + r.status_msg + "\r\n"@ + header_block(
        r.headers,
    );
    assert(wire(r) == head + "Content-Length: "@ + decimal(byte_len(r.body)) + "\r\n\r\n"@
        + r.body);
    lemma_decimal_value(byte_len(r.body));
    if r.body.len() == 0 {
        assert(r.body == Seq::<char>::empty());
        assert(encode_utf8(r.body) =~= Seq::<u8>::empty());
        reveal_strlit("0");
    }
}

/// The reason phrase of each known status code, and of any other code.
pub proof fn lemma_status_messages(code: Seq<char>)
    ensures
        status_text("200"@) == "OK"@,
        status_text("400"@) == "Bad Request"@,
        status_text("404"@) == "Not Found"@,
        status_text("500"@) == "Internal Server Error"@,
        code != "200"@ && code != "400"@ && code != "404"@ && code != "500"@ ==> status_text(code)
            == "Unreachable"@,
{
    reveal_strlit("200");
    reveal_strlit("400");
    reveal_strlit("404");
    reveal_strlit("500");
    assert("400"@[0] != "200"@[0]);
    assert("404"@[0] != "200"@[0]);
    assert("404"@[2] != "400"@[2]);
    assert("500"@[0] != "200"@[0]);
    assert("500"@[0] != "400"@[0]);
    assert("500"@[0] != "404"@[0]);
}

/// An HTTP response. The reason phrase always matches the status code.
#[derive(Debug)]
pub struct HttpResponse {
    version: String,
    status_code: String,
    status_msg: String,
    headers: Vec<(String, String)>,
    body: Option<String>,
}

impl View for HttpResponse {
    type V = ResponseView;

    closed spec fn view(&self) -> ResponseView {
        ResponseView {
            version: self.version@,
            status_code: self.status_code@,
            status_msg: self.status_msg@,
            headers: pairs_view(self.headers@),
            body: match self.body {
                Some(b) => b@,
                None => Seq::empty(),
            },
        }
    }
}

/// The reason phrase for `code`.
fn status_text_of(code: &str) -> (r: String)
    ensures
        r@ == status_text(code@),
{
    if same_text(code, "200") {
        String::from_str("OK")
    } else if same_text(code, "400") {
        String::from_str("Bad Request")
    } else if same_text(code, "404") {
        String::from_str("Not Found")
    } else if same_text(code, "500") {
        String::from_str("Internal Server Error")
    } else {
        String::from_str("Unreachable")
    }
}

/// The given headers with each name kept once, its last value winning.
fn collect_headers(h: &Vec<(String, String)>) -> (r: Vec<(String, String)>)
    ensures
        pairs_view(r@) == put_all(Seq::empty(), pairs_view(h@)),
{
    let ghost hv = pairs_view(h@);
    let mut r: Vec<(String, String)> = Vec::new();
    let mut i: usize = 0;
    while i < h.len()
        invariant
            hv == pairs_view(h@),
            i <= h@.len(),
            pairs_view(r@) == put_all(Seq::empty(), hv.subrange(0, i as int)),
        decreases h@.len() - i,
    {
        let k = h[i].0.clone();
        let v = h[i].1.clone();
        insert_header(&mut r, k, v);
        assert(hv.subrange(0, i + 1).drop_last() == hv.subrange(0, i as int));
        i = i + 1;
    }
    assert(hv.subrange(0, i as int) == hv);
    r
}

impl HttpResponse {
    /// A response with the given status code. The reason phrase follows
    /// from the code; without headers a single `Content-Type:` `text/html`
    /// header is used; without a body the body is empty.
    pub fn new(status_code: &str, headers: Option<Vec<(String, String)>>, body: Option<String>) -> (r:
        HttpResponse)
        ensures
            r@ == built(status_code@, opt_pairs(&headers), opt_text(&body)),
    {
        let hs = match headers {
            Some(h) => collect_headers(&h),
            None => {
                let mut d: Vec<(String, String)> = Vec::new();
                d.push((String::from_str("Content-Type:"), String::from_str("text/html")));
                assert(pairs_view(d@) =~= default_headers());
                d
            },
        };
        HttpResponse {
            version: String::from_str("HTTP/1.1"),
            status_code: String::from_str(status_code),
            status_msg: status_text_of(status_code),
            headers: hs,
            body,
        }
    }

    pub fn version(&self) -> (r: &str)
        ensures
            r@ == self@.version,
    {
        self.version.as_str()
    }

    pub fn status_code(&self) -> (r: &str)
        ensures
            r@ == self@.status_code,
    {
        self.status_code.as_str()
    }

    pub fn status_msg(&self) -> (r: &str)
        ensures
            r@ == self@.status_msg,
    {
        self.status_msg.as_str()
    }

    /// The header lines, each as its name and value followed by CRLF.
    pub fn headers(&self) -> (r: String)
        ensures
            r@ == header_block(self@.headers),
    {
        let ghost hv = pairs_view(self.headers@);
        let mut out = String::new();
        let mut i: usize = 0;
        while i < self.headers.len()
            invariant
                hv == pairs_view(self.headers@),
                i <= self.headers@.len(),
                out@ == header_block(hv.subrange(0, i as int)),
            decreases self.headers@.len() - i,
        {
            out.append(self.headers[i].0.as_str());
            out.append(self.headers[i].1.as_str());
            out.append("\r\n");
            assert(hv.subrange(0, i + 1).drop_last() == hv.subrange(0, i as int));
            i = i + 1;
        }
        assert(hv.subrange(0, i as int) == hv);
        out
    }

    /// The body; empty when the response has none.
    pub fn body(&self) -> (r: &str)
        ensures
            r@ == self@.body,
    {
        match &self.body {
            Some(b) => b.as_str(),
            None => {
                proof {
                    reveal_strlit("");
                }
                ""
            },
        }
    }

    /// The response in wire format.
    pub fn to_wire(&self) -> (r: String)
        ensures
            r@ == wire(self@),
    {
        let mut out = String::new();
        out.append(self.version.as_str());
        out.append(" ");
        out.append(self.status_code.as_str());
        out.append(" ");
        out.append(self.status_msg.as_str());
        out.append("\r\n");
        let hs = self.headers();
        out.append(hs.as_str());
        out.append("Content-Length: ");
        let body = self.body();
        push_decimal(&mut out, body.as_bytes().len());
        out.append("\r\n\r\n");
        out.append(body);
        out
    }

    /// Appends the response in wire format, as UTF-8, to `out`.
    pub fn send_response(&self, out: &mut Vec<u8>)
        ensures
            final(out)@ == old(out)@ + encode_utf8(wire(self@)),
    {
        let text = self.to_wire();
        let mut bytes = text.as_str().as_bytes_vec();
        out.append(&mut bytes);
    }
}

} // verus!
