//! HTTP requests and the parser that reads them from text.
//!
//! The parser goes through the text line by line. A line that contains
//! `HTTP` is the request line; a line with a `:` is a header, split at the
//! first colon (the value keeps any space after the colon); a blank line is
//! skipped; any other line is the body, the last such line winning. Lines
//! end at LF, and a CR right before the LF is dropped. The text is read up
//! to its first NUL character, so the zero padding of a read buffer is
//! never taken for content.
use vstd::prelude::*;
use vstd::string::*;
use crate::headers::{get_header, insert_header, key_index, keys_unique, lemma_key_index, lemma_put_all_unique, lemma_put_unique, lookup, pairs_view, put, put_all};
use crate::text::{chars_of, contains, contains_at, first_index, is_space, is_space_char, lemma_first_index, lemma_first_index_at, same_text};

verus! {

#[derive(Debug, PartialEq, Eq, Structural, Clone, Copy)]
pub enum Method {
    GET,
    POST,
    Unitialized,
}

#[derive(Debug, PartialEq, Eq, Structural, Clone, Copy)]
pub enum Version {
    V1_1,
    V2_0,
    Unitialized,
}

/// The target of a request.
#[derive(Debug, PartialEq, Eq)]
pub enum Resource {
    Path(String),
}

/// Why a request could not be read.
#[derive(Debug, PartialEq, Eq, Structural, Clone, Copy)]
pub enum ParseError {
    /// A line that contains `HTTP` does not consist of exactly three
    /// words: method, target and version.
    MalformedRequestLine,
}

/// A parsed request. Each header name occurs once in `headers`.
#[derive(Debug)]
pub struct HttpRequest {
    pub method: Method,
    pub version: Version,
    pub resource: Resource,
    pub headers: Vec<(String, String)>,
    pub body: String,
}

/// What a request holds, as character sequences.
pub struct RequestView {
    pub method: Method,
    pub version: Version,
    pub path: Seq<char>,
    pub headers: Seq<(Seq<char>, Seq<char>)>,
    pub body: Seq<char>,
}

impl View for HttpRequest {
    type V = RequestView;

    open spec fn view(&self) -> RequestView {
        RequestView {
            method: self.method,
            version: self.version,
            path: match self.resource {
                Resource::Path(p) => p@,
            },
            headers: pairs_view(self.headers@),
            body: self.body@,
        }
    }
}

pub open spec fn method_of(t: Seq<char>) -> Method {
    if t == "GET"@ {
        Method::GET
    } else if t == "POST"@ {
        Method::POST
    } else {
        Method::Unitialized
    }
}

pub open spec fn version_of(t: Seq<char>) -> Version {
    if t == "HTTP/1.1"@ {
        Version::V1_1
    } else if t == "HTTP/2.0"@ {
        Version::V2_0
    } else {
        Version::Unitialized
    }
}

/// The maximal runs of non-space characters of `s`, in order.
pub open spec fn words(s: Seq<char>) -> Seq<Seq<char>>
    decreases s.len(),
{
    if s.len() == 0 {
        Seq::empty()
    } else {
        let w = words(s.drop_last());
        let c = s.last();
        if is_space(c) {
            w
        } else if s.len() >= 2 && !is_space(s[s.len() - 2]) {
            w.update(w.len() - 1, w.last().push(c))
        } else {
            w.push(seq![c])
        }
    }
}

/// `l` without one trailing CR.
pub open spec fn strip_cr(l: Seq<char>) -> Seq<char> {
    if l.len() > 0 && l.last() == '\r' {
        l.drop_last()
    } else {
        l
    }
}

/// The lines of `s` from position `start` on.
pub open spec fn lines_from(s: Seq<char>, start: int) -> Seq<Seq<char>>
    decreases s.len() - start,
{
    if start < 0 || start > s.len() {
        Seq::empty()
    } else {
        let j = first_index(s.subrange(start, s.len() as int), '\n');
        if j < 0 || j >= s.len() - start {
            seq![s.subrange(start, s.len() as int)]
        } else {
            seq![strip_cr(s.subrange(start, start + j))] + lines_from(s, start + j + 1)
        }
    }
}

/// The part of `s` before its first NUL character.
pub open spec fn request_text(s: Seq<char>) -> Seq<char> {
    let j = first_index(s, '\0');
    if j < 0 {
        s
    } else {
        s.subrange(0, j)
    }
}

/// The request before any line has been read.
pub open spec fn empty_request() -> RequestView {
    RequestView {
        method: Method::Unitialized,
        version: Version::Unitialized,
        path: Seq::empty(),
        headers: Seq::empty(),
        body: Seq::empty(),
    }
}

/// The effect of one line on the request read so far.
pub open spec fn step(st: Result<RequestView, ParseError>, line: Seq<char>) -> Result<
    RequestView,
    ParseError,
> {
    match st {
        Err(e) => Err(e),
        Ok(r) => if contains(line, "HTTP"@) {
            let w = words(line);
            if w.len() == 3 {
                Ok(
                    RequestView {
                        method: method_of(w[0]),
                        version: version_of(w[2]),
                        path: w[1],
                        headers: r.headers,
                        body: r.body,
                    },
                )
            } else {
                Err(ParseError::MalformedRequestLine)
            }
        } else if first_index(line, ':') >= 0 {
            let j = first_index(line, ':');
            Ok(
                RequestView {
                    method: r.method,
                    version: r.version,
                    path: r.path,
                    headers: put(
                        r.headers,
                        line.subrange(0, j),
                        line.subrange(j + 1, line.len() as int),
                    ),
                    body: r.body,
                },
            )
        } else if line.len() == 0 {
            Ok(r)
        } else {
            Ok(
                RequestView {
                    method: r.method,
                    version: r.version,
                    path: r.path,
                    headers: r.headers,
                    body: line,
                },
            )
        },
    }
}

/// The request read from `ls` line after line, starting from `st`.
pub open spec fn run(st: Result<RequestView, ParseError>, ls: Seq<Seq<char>>) -> Result<
    RequestView,
    ParseError,
>
    decreases ls.len(),
{
    if ls.len() == 0 {
        st
    } else {
        run(step(st, ls[0]), ls.drop_first())
    }
}

/// The request that the text `s` holds.
pub open spec fn parse_request(s: Seq<char>) -> Result<RequestView, ParseError> {
    run(Ok(empty_request()), lines_from(request_text(s), 0))
}

/// Once reading has failed, later lines do not change the outcome.
pub proof fn lemma_run_err(e: ParseError, ls: Seq<Seq<char>>)
    ensures
        run(Err(e), ls) == Err::<RequestView, ParseError>(e),
    decreases ls.len(),
{
    if ls.len() > 0 {
        lemma_run_err(e, ls.drop_first());
    }
}

/// `s` holds no `c`.
pub open spec fn free_of(s: Seq<char>, c: char) -> bool {
    forall|m: int| 0 <= m < s.len() ==> s[m] != c
}

/// The lines of `ls`, each followed by CRLF.
pub open spec fn crlf_join(ls: Seq<Seq<char>>) -> Seq<char>
    decreases ls.len(),
{
    if ls.len() == 0 {
        Seq::empty()
    } else {
        ls[0] + "\r\n"@ + crlf_join(ls.drop_first())
    }
}

/// The header line `name:value` of each pair.
pub open spec fn header_lines(items: Seq<(Seq<char>, Seq<char>)>) -> Seq<Seq<char>> {
    items.map_values(|p: (Seq<char>, Seq<char>)| p.0 + ":"@ + p.1)
}

/// A request as sent: the request line, one line per header, and the blank
/// line that ends the headers, each line ended by CRLF.
pub open spec fn request_text_of(line: Seq<char>, items: Seq<(Seq<char>, Seq<char>)>) -> Seq<char> {
    crlf_join(seq![line] + header_lines(items) + seq![Seq::<char>::empty()])
}

/// Headers that the parser reads back as they were written: the name holds
/// no colon, neither part holds a line break or NUL, and the line does not
/// contain `HTTP` (such a line would be taken for a request line).
pub open spec fn plain_headers(items: Seq<(Seq<char>, Seq<char>)>) -> bool {
    forall|i: int|
        0 <= i < items.len() ==> {
            &&& free_of(#[trigger] items[i].0, ':')
            &&& free_of(items[i].0, '\n')
            &&& free_of(items[i].0, '\0')
            &&& free_of(items[i].1, '\n')
            &&& free_of(items[i].1, '\0')
            &&& !contains(items[i].0 + ":"@ + items[i].1, "HTTP"@)
        }
}

/// Reading `a` then `b` is reading `a + b`.
pub proof fn lemma_run_append(st: Result<RequestView, ParseError>, a: Seq<Seq<char>>, b: Seq<Seq<char>>)
    ensures
        run(st, a + b) == run(run(st, a), b),
    decreases a.len(),
{
    if a.len() > 0 {
        assert((a + b).drop_first() == a.drop_first() + b);
        assert((a + b)[0] == a[0]);
        lemma_run_append(step(st, a[0]), a.drop_first(), b);
    } else {
        assert(a + b == b);
    }
}

/// Text made of CRLF-ended lines without line breaks splits back into those
/// lines, and an empty last line.
proof fn lemma_lines_of_join(s: Seq<char>, start: int, ls: Seq<Seq<char>>)
    requires
        0 <= start <= s.len(),
        s.subrange(start, s.len() as int) == crlf_join(ls),
        forall|i: int| 0 <= i < ls.len() ==> free_of(#[trigger] ls[i], '\n'),
    ensures
        lines_from(s, start) == ls + seq![Seq::<char>::empty()],
    decreases ls.len(),
{
    reveal_strlit("\r\n");
    let rest = s.subrange(start, s.len() as int);
    if ls.len() == 0 {
        lemma_first_index_at(rest, '\n', -1);
        assert(ls + seq![Seq::<char>::empty()] == seq![Seq::<char>::empty()]);
    } else {
        let l0 = ls[0];
        let n0 = l0.len() as int;
        assert(free_of(ls[0], '\n'));
        assert(rest == l0 + "\r\n"@ + crlf_join(ls.drop_first()));
        assert(rest[n0] == '\r');
        assert(rest[n0 + 1] == '\n');
        assert forall|m: int| 0 <= m < n0 + 1 implies rest[m] != '\n' by {
            if m < n0 {
                assert(rest[m] == l0[m]);
            }
        }
        lemma_first_index_at(rest, '\n', n0 + 1);
        assert(s.subrange(start, start + n0 + 1) =~= l0.push('\r'));
        assert(strip_cr(l0.push('\r')) =~= l0);
        let tail = crlf_join(ls.drop_first());
        assert("\r\n"@.len() == 2);
        assert(rest.len() == n0 + 2 + tail.len());
        let after = s.subrange(start + n0 + 2, s.len() as int);
        assert(after.len() == tail.len());
        assert forall|m: int| 0 <= m < tail.len() implies #[trigger] after[m] == tail[m] by {
            assert(rest[n0 + 2 + m] == tail[m]);
            assert(rest[n0 + 2 + m] == s[start + n0 + 2 + m]);
        }
        assert(after =~= tail);
        assert forall|i: int| 0 <= i < ls.drop_first().len() implies free_of(
            #[trigger] ls.drop_first()[i],
            '\n',
        ) by {
            assert(ls.drop_first()[i] == ls[i + 1]);
        }
        lemma_lines_of_join(s, start + n0 + 2, ls.drop_first());
        assert(ls + seq![Seq::<char>::empty()] == seq![l0] + (ls.drop_first() + seq![
            Seq::<char>::empty(),
        ]));
    }
}

/// CRLF-ended lines without NUL make text without NUL.
proof fn lemma_join_free_of_nul(ls: Seq<Seq<char>>)
    requires
        forall|i: int| 0 <= i < ls.len() ==> free_of(#[trigger] ls[i], '\0'),
    ensures
        free_of(crlf_join(ls), '\0'),
    decreases ls.len(),
{
    reveal_strlit("\r\n");
    if ls.len() > 0 {
        assert forall|i: int| 0 <= i < ls.drop_first().len() implies free_of(
            #[trigger] ls.drop_first()[i],
            '\0',
        ) by {
            assert(ls.drop_first()[i] == ls[i + 1]);
        }
        lemma_join_free_of_nul(ls.drop_first());
        assert(free_of(ls[0], '\0'));
        let j = crlf_join(ls);
        let l0 = ls[0];
        assert forall|m: int| 0 <= m < j.len() implies j[m] != '\0' by {
            if m < l0.len() {
                assert(j[m] == l0[m]);
            } else if m >= l0.len() + 2 {
                assert(j[m] == crlf_join(ls.drop_first())[m - l0.len() - 2]);
            }
        }
    }
}

/// Reading plain header lines puts each pair into the headers in turn and
/// changes nothing else.
proof fn lemma_run_headers(r: RequestView, items: Seq<(Seq<char>, Seq<char>)>)
    requires
        plain_headers(items),
    ensures
        run(Ok(r), header_lines(items)) == Ok::<RequestView, ParseError>(
            RequestView {
                method: r.method,
                version: r.version,
                path: r.path,
                headers: put_all(r.headers, items),
                body: r.body,
            },
        ),
    decreases items.len(),
{
    if items.len() == 0 {
        assert(header_lines(items).len() == 0);
        assert(r == RequestView {
            method: r.method,
            version: r.version,
            path: r.path,
            headers: r.headers,
            body: r.body,
        });
    } else {
        let pre = items.drop_last();
        let (k, v) = items.last();
        let l = k + ":"@ + v;
        assert(plain_headers(pre)) by {
            assert forall|i: int| 0 <= i < pre.len() implies free_of(#[trigger] pre[i].0, ':') by {
                assert(pre[i] == items[i]);
            }
            assert forall|i: int| 0 <= i < pre.len() implies {
                &&& free_of(#[trigger] pre[i].0, ':')
                &&& free_of(pre[i].0, '\n')
                &&& free_of(pre[i].0, '\0')
                &&& free_of(pre[i].1, '\n')
                &&& free_of(pre[i].1, '\0')
                &&& !contains(pre[i].0 + ":"@ + pre[i].1, "HTTP"@)
            } by {
                assert(pre[i] == items[i]);
            }
        }
        lemma_run_headers(r, pre);
        assert(header_lines(items) == header_lines(pre) + seq![l]);
        lemma_run_append(Ok(r), header_lines(pre), seq![l]);
        let mid = RequestView {
            method: r.method,
            version: r.version,
            path: r.path,
            headers: put_all(r.headers, pre),
            body: r.body,
        };
        assert(run(Ok(mid), seq![l]) == run(step(Ok(mid), l), seq![l].drop_first()));
        assert(seq![l].drop_first().len() == 0);
        reveal_strlit(":");
        let last = items.len() - 1;
        assert(items[last] == (k, v));
        assert(free_of(items[last].0, ':'));
        assert(!contains(l, "HTTP"@));
        assert(l[k.len() as int] == ':');
        assert forall|m: int| 0 <= m < k.len() implies l[m] != ':' by {
            assert(l[m] == k[m]);
        }
        lemma_first_index_at(l, ':', k.len() as int);
        assert(l.subrange(0, k.len() as int) =~= k);
        assert(l.subrange(k.len() as int + 1, l.len() as int) =~= v);
    }
}

/// A request made of a well-formed request line and plain header lines,
/// names all different, is read without error; its headers are exactly the
/// pairs written, in their order, and looking up each header name gives
/// back its value unchanged.
pub proof fn lemma_headers_round_trip(line: Seq<char>, items: Seq<(Seq<char>, Seq<char>)>)
    requires
        contains(line, "HTTP"@),
        words(line).len() == 3,
        free_of(line, '\n'),
        free_of(line, '\0'),
        plain_headers(items),
        keys_unique(items),
    ensures
        parse_request(request_text_of(line, items)) is Ok,
        parse_request(request_text_of(line, items))->Ok_0.headers == items,
        forall|i: int|
            0 <= i < items.len() ==> lookup(
                parse_request(request_text_of(line, items))->Ok_0.headers,
                #[trigger] items[i].0,
            ) == Some(items[i].1),
{
    reveal_strlit(":");
    let hl = header_lines(items);
    let ls = seq![line] + hl + seq![Seq::<char>::empty()];
    let text = request_text_of(line, items);
    assert forall|i: int| 0 <= i < ls.len() implies free_of(#[trigger] ls[i], '\n') && free_of(
        ls[i],
        '\0',
    ) by {
        if 1 <= i < 1 + hl.len() {
            let (k, v) = items[i - 1];
            assert(ls[i] == k + ":"@ + v);
            assert(free_of(items[i - 1].0, '\n'));
            assert forall|m: int| 0 <= m < ls[i].len() implies ls[i][m] != '\n' && ls[i][m] != '\0' by {
                if m < k.len() {
                    assert(ls[i][m] == k[m]);
                } else if m > k.len() {
                    assert(ls[i][m] == v[m - k.len() - 1]);
                }
            }
        }
    }
    lemma_join_free_of_nul(ls);
    lemma_first_index_at(text, '\0', -1);
    assert(request_text(text) == text);
    assert(text.subrange(0, text.len() as int) == text);
    lemma_lines_of_join(text, 0, ls);
    let all = ls + seq![Seq::<char>::empty()];
    let w = words(line);
    let r1 = RequestView {
        method: method_of(w[0]),
        version: version_of(w[2]),
        path: w[1],
        headers: Seq::empty(),
        body: Seq::empty(),
    };
    assert(step(Ok(empty_request()), line) == Ok::<RequestView, ParseError>(r1));
    assert(run(Ok(empty_request()), seq![line]) == run(step(Ok(empty_request()), line), seq![
        line,
    ].drop_first()));
    assert(seq![line].drop_first().len() == 0);
    lemma_run_headers(r1, items);
    let r2 = RequestView {
        method: r1.method,
        version: r1.version,
        path: r1.path,
        headers: put_all(r1.headers, items),
        body: r1.body,
    };
    let blanks = seq![Seq::<char>::empty(), Seq::<char>::empty()];
    assert(all == seq![line] + hl + blanks);
    lemma_run_append(Ok(empty_request()), seq![line] + hl, blanks);
    lemma_run_append(Ok(empty_request()), seq![line], hl);
    reveal_strlit("HTTP");
    assert(!contains(Seq::<char>::empty(), "HTTP"@));
    lemma_first_index(Seq::<char>::empty(), ':');
    assert(step(Ok(r2), Seq::<char>::empty()) == Ok::<RequestView, ParseError>(r2));
    assert(run(Ok(r2), blanks) == run(step(Ok(r2), blanks[0]), blanks.drop_first()));
    assert(blanks.drop_first() == seq![Seq::<char>::empty()]);
    assert(run(Ok(r2), seq![Seq::<char>::empty()]) == run(
        step(Ok(r2), Seq::<char>::empty()),
        seq![Seq::<char>::empty()].drop_first(),
    ));
    assert(seq![Seq::<char>::empty()].drop_first().len() == 0);
    assert(parse_request(text) == Ok::<RequestView, ParseError>(r2));
    lemma_put_all_unique(items);
    assert(r2.headers == items);
    assert forall|i: int| 0 <= i < items.len() implies lookup(
        r2.headers,
        #[trigger] items[i].0,
    ) == Some(items[i].1) by {
        lemma_key_index(items, items[i].0, 0);
        let j = key_index(items, items[i].0, 0);
        assert(j == i);
    }
}

fn method_from(t: &str) -> (r: Method)
    ensures
        r == method_of(t@),
{
    if same_text(t, "GET") {
        Method::GET
    } else if same_text(t, "POST") {
        Method::POST
    } else {
        Method::Unitialized
    }
}

fn version_from(t: &str) -> (r: Version)
    ensures
        r == version_of(t@),
{
    if same_text(t, "HTTP/1.1") {
        Version::V1_1
    } else if same_text(t, "HTTP/2.0") {
        Version::V2_0
    } else {
        Version::Unitialized
    }
}

impl<'a> From<&'a str> for Method {
    fn from(arg: &'a str) -> (r: Method) {
        method_from(arg)
    }
}

impl<'a> vstd::std_specs::convert::FromSpecImpl<&'a str> for Method {
    open spec fn obeys_from_spec() -> bool {
        true
    }

    open spec fn from_spec(v: &'a str) -> Method {
        method_of(v@)
    }
}

impl<'a> From<&'a str> for Version {
    fn from(arg: &'a str) -> (r: Version) {
        version_from(arg)
    }
}

impl<'a> vstd::std_specs::convert::FromSpecImpl<&'a str> for Version {
    open spec fn obeys_from_spec() -> bool {
        true
    }

    open spec fn from_spec(v: &'a str) -> Version {
        version_of(v@)
    }
}

/// The runs of `s` that the (start, end) positions of `rs` mark.
pub open spec fn texts(s: Seq<char>, rs: Seq<(usize, usize)>) -> Seq<Seq<char>> {
    rs.map_values(|r: (usize, usize)| s.subrange(r.0 as int, r.1 as int))
}

/// Splits a request line into method, target and version.
fn process_req_line(line: &str) -> (r: Result<(Method, Resource, Version), ParseError>)
    ensures
        match r {
            Ok((m, Resource::Path(p), v)) => {
                &&& words(line@).len() == 3
                &&& m == method_of(words(line@)[0])
                &&& p@ == words(line@)[1]
                &&& v == version_of(words(line@)[2])
            },
            Err(e) => words(line@).len() != 3 && e == ParseError::MalformedRequestLine,
        },
{
    let cs = chars_of(line);
    let n = cs.len();
    let ghost s = cs@;
    let mut rs: Vec<(usize, usize)> = Vec::new();
    let mut i: usize = 0;
    while i < n
        invariant
            s == cs@,
            n == s.len(),
            i <= n,
            words(s.subrange(0, i as int)) == texts(s, rs@),
            forall|k: int| 0 <= k < rs@.len() ==> #[trigger] rs@[k].0 < rs@[k].1 <= i,
            i > 0 && !is_space(s[i - 1]) ==> rs@.len() > 0 && rs@.last().1 == i,
        decreases n - i,
    {
        let c = cs[i];
        let ghost pre = s.subrange(0, i as int);
        let ghost next = s.subrange(0, i + 1);
        assert(next.drop_last() == pre);
        assert(next.last() == c);
        if is_space_char(c) {
        } else if i > 0 && !is_space_char(cs[i - 1]) {
            let last = rs.len() - 1;
            let st = rs[last].0;
            let ghost w = texts(s, rs@);
            rs.set(last, (st, i + 1));
            assert(s.subrange(st as int, i + 1) == s.subrange(st as int, i as int).push(c));
            assert(texts(s, rs@) =~= w.update(w.len() - 1, w.last().push(c)));
        } else {
            let ghost w = texts(s, rs@);
            rs.push((i, i + 1));
            assert(s.subrange(i as int, i + 1) =~= seq![c]);
            assert(texts(s, rs@) =~= w.push(seq![c]));
        }
        i = i + 1;
    }
    assert(s.subrange(0, n as int) == s);
    if rs.len() != 3 {
        return Err(ParseError::MalformedRequestLine);
    }
    let method = method_from(line.substring_char(rs[0].0, rs[0].1));
    let path = line.substring_char(rs[1].0, rs[1].1).to_owned();
    let version = version_from(line.substring_char(rs[2].0, rs[2].1));
    Ok((method, Resource::Path(path), version))
}

/// Splits a header line at its first colon into name and value.
fn process_header_line(line: &str) -> (r: (String, String))
    requires
        first_index(line@, ':') >= 0,
    ensures
        r.0@ == line@.subrange(0, first_index(line@, ':')),
        r.1@ == line@.subrange(first_index(line@, ':') + 1, line@.len() as int),
{
    let cs = chars_of(line);
    let n = cs.len();
    proof {
        lemma_first_index(line@, ':');
    }
    let mut i: usize = 0;
    while cs[i] != ':'
        invariant
            cs@ == line@,
            n == cs@.len(),
            0 <= i <= first_index(line@, ':') < n,
            cs@[first_index(line@, ':')] == ':',
            forall|m: int| 0 <= m < first_index(line@, ':') ==> cs@[m] != ':',
        decreases n - i,
    {
        i = i + 1;
    }
    let key = line.substring_char(0, i).to_owned();
    let value = line.substring_char(i + 1, n).to_owned();
    (key, value)
}

/// Whether `line` holds a colon.
fn has_colon(line: &str) -> (r: bool)
    ensures
        r == (first_index(line@, ':') >= 0),
{
    let cs = chars_of(line);
    let mut i: usize = 0;
    while i < cs.len()
        invariant
            cs@ == line@,
            i <= cs@.len(),
            forall|m: int| 0 <= m < i ==> cs@[m] != ':',
        decreases cs@.len() - i,
    {
        if cs[i] == ':' {
            proof {
                lemma_first_index_at(line@, ':', i as int);
            }
            return true;
        }
        i = i + 1;
    }
    proof {
        lemma_first_index_at(line@, ':', -1);
    }
    false
}

impl HttpRequest {
    /// Applies one line to the request read so far.
    fn apply_line(&mut self, line: &str) -> (r: Result<(), ParseError>)
        requires
            keys_unique(old(self)@.headers),
        ensures
            step(Ok(old(self)@), line@) == match r {
                Ok(_) => Ok::<RequestView, ParseError>(final(self)@),
                Err(e) => Err(e),
            },
            keys_unique(final(self)@.headers),
    {
        let lc = chars_of(line);
        assert(lc@.subrange(0, lc@.len() as int) == line@);
        if contains_at(&lc, 0, lc.len(), "HTTP") {
            match process_req_line(line) {
                Ok((m, p, v)) => {
                    self.method = m;
                    self.resource = p;
                    self.version = v;
                    Ok(())
                },
                Err(e) => Err(e),
            }
        } else if has_colon(line) {
            let (k, v) = process_header_line(line);
            proof {
                lemma_put_unique(pairs_view(self.headers@), k@, v@);
            }
            insert_header(&mut self.headers, k, v);
            Ok(())
        } else if line.unicode_len() == 0 {
            Ok(())
        } else {
            self.body = line.to_owned();
            Ok(())
        }
    }

    /// Reads a request from text: a request line, header lines and at most
    /// one body line, as described at the top of this module.
    pub fn parse(raw: &str) -> (r: Result<HttpRequest, ParseError>)
        ensures
            parse_request(raw@) == match r {
                Ok(req) => Ok::<RequestView, ParseError>(req@),
                Err(e) => Err(e),
            },
            r matches Ok(req) ==> keys_unique(req@.headers),
    {
        let cs = chars_of(raw);
        let mut n: usize = 0;
        while n < cs.len() && cs[n] != '\0'
            invariant
                cs@ == raw@,
                n <= cs@.len(),
                forall|m: int| 0 <= m < n ==> cs@[m] != '\0',
            decreases cs@.len() - n,
        {
            n = n + 1;
        }
        proof {
            if n < cs@.len() {
                lemma_first_index_at(raw@, '\0', n as int);
            } else {
                lemma_first_index_at(raw@, '\0', -1);
                assert(raw@.subrange(0, n as int) == raw@);
            }
        }
        let ghost t = raw@.subrange(0, n as int);
        assert(t == request_text(raw@));
        let mut req = HttpRequest {
            method: Method::Unitialized,
            version: Version::Unitialized,
            resource: Resource::Path(String::new()),
            headers: Vec::new(),
            body: String::new(),
        };
        assert(req@.headers =~= Seq::<(Seq<char>, Seq<char>)>::empty());
        let mut start: usize = 0;
        let mut i: usize = 0;
        while i < n
            invariant
                cs@ == raw@,
                n <= cs@.len(),
                t == raw@.subrange(0, n as int),
                start <= i <= n,
                forall|m: int| start <= m < i ==> t[m] != '\n',
                parse_request(raw@) == run(Ok(req@), lines_from(t, start as int)),
                keys_unique(req@.headers),
            decreases n - i,
        {
            if cs[i] == '\n' {
                let end = if i > start && cs[i - 1] == '\r' {
                    i - 1
                } else {
                    i
                };
                let ghost rest = t.subrange(start as int, n as int);
                proof {
                    lemma_first_index_at(rest, '\n', i - start);
                    assert(strip_cr(t.subrange(start as int, i as int)) == t.subrange(
                        start as int,
                        end as int,
                    ));
                }
                let ghost ls = lines_from(t, start as int);
                assert(ls.drop_first() == lines_from(t, i + 1));
                let line = raw.substring_char(start, end);
                assert(line@ == t.subrange(start as int, end as int));
                match req.apply_line(line) {
                    Ok(_) => {},
                    Err(e) => {
                        proof {
                            lemma_run_err(e, ls.drop_first());
                        }
                        return Err(e);
                    },
                }
                start = i + 1;
            }
            i = i + 1;
        }
        let ghost rest = t.subrange(start as int, n as int);
        proof {
            lemma_first_index_at(rest, '\n', -1);
        }
        let line = raw.substring_char(start, n);
        assert(line@ == rest);
        let ghost ls = lines_from(t, start as int);
        assert(ls == seq![rest]);
        let ghost before = req@;
        assert(run(Ok(before), ls) == run(step(Ok(before), rest), ls.drop_first()));
        assert(ls.drop_first().len() == 0);
        match req.apply_line(line) {
            Ok(_) => Ok(req),
            Err(e) => Err(e),
        }
    }

    /// The value of the header named `key`, if the request has one.
    pub fn header(&self, key: &str) -> (r: Option<String>)
        ensures
            match r {
                Some(v) => lookup(self@.headers, key@) == Some(v@),
                None => lookup(self@.headers, key@) is None,
            },
    {
        get_header(&self.headers, key)
    }
}

} // verus!
