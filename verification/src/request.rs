//! A request, and the parser that reads one from the bytes a peer has sent.

use crate::headers::{
    content_length, lemma_text_map_inserted, line_value, text_map, FieldMap, HeaderError, Headers,
};
use crate::multi_map::{inserted, MultiMap, ValueView};
use crate::server::HttpMethod;
use crate::stream_reader::{
    lemma_decoded_ends, lemma_decoded_length, lemma_encode_concat, lemma_line_is_read,
    lemma_line_within_budget, BytesRead, EndOfFile, LineRead, ReadError, Stream, StreamReader,
};
use crate::text::{
    decimal, is_digit, join, lemma_decimal_round_trip, lemma_first_index_is, lemma_join_split,
    lemma_split_first, lemma_split_whole, lemma_trim_plain, lower, split, split_once, str_split,
    str_split_once, str_strip_suffix, to_lowercase, views,
};
use vstd::prelude::*;
use vstd::string::StrSliceExecFns;
use vstd::utf8::{encode_utf8, is_ascii_chars, is_ascii_chars_encode_utf8};

verus! {

/// The budget of bytes for the request line.
pub const REQUEST_LINE_LIMIT: u64 = 1024;

/// The budget of bytes for the header lines of a request, taken together.
pub const HEADER_BLOCK_LIMIT: u64 = 8192;

/// The budget of bytes for the body of a request.
pub const BODY_LIMIT: u64 = 8192;

/// The request is not well formed.
#[derive(Debug, Clone, Copy, PartialEq, Eq, Structural)]
pub struct InvalidRequest;

impl InvalidRequest {
    pub fn to_string(&self) -> (s: String)
        ensures
            s@ == "invalid request"@,
    {
        "invalid request".to_owned()
    }
}

/// Why no request was read.
#[derive(Debug, Clone, Copy, PartialEq, Eq, Structural)]
pub enum RequestError {
    /// The bytes received so far do not hold a whole request. Nothing was
    /// consumed: the read can be made again once more bytes have arrived.
    Incomplete,
    /// The peer has finished at the start of a line, with nothing pending.
    EndOfFile(EndOfFile),
    /// The request is not well formed, or is larger than one of its
    /// budgets.
    InvalidRequest(InvalidRequest),
    /// A line of the request is not valid UTF-8.
    InvalidData,
}

/// The two characters that end a line.
pub open spec fn crlf() -> Seq<char> {
    seq!['\r', '\n']
}

/// `text` without the line end that it ends with, if it ends with one.
pub open spec fn strip_crlf(text: Seq<char>) -> Option<Seq<char>> {
    if crlf().is_suffix_of(text) {
        Some(text.take(text.len() - 2))
    } else {
        None
    }
}

/// Whether `line` is made of three parts, none of them empty, with one
/// space between each two.
pub open spec fn is_request_line(line: Seq<char>) -> bool {
    let parts = split(line, ' ');
    parts.len() == 3 && parts[0].len() > 0 && parts[1].len() > 0 && parts[2].len() > 0
}

/// A method, a target and a version, none of them empty and none with a
/// space in it, written with one space between each two and a line end
/// after them, are read back as they were written.
pub proof fn lemma_request_line_round_trip(method: Seq<char>, target: Seq<char>, version: Seq<char>)
    requires
        method.len() > 0 && !method.contains(' '),
        target.len() > 0 && !target.contains(' '),
        version.len() > 0 && !version.contains(' '),
    ensures
        ({
            let line = method + seq![' '] + target + seq![' '] + version;
            &&& strip_crlf(line + crlf()) == Some(line)
            &&& is_request_line(line)
            &&& split(line, ' ') == seq![method, target, version]
        }),
{
    let line = method + seq![' '] + target + seq![' '] + version;
    assert((line + crlf()).take((line + crlf()).len() - 2) =~= line);
    assert(crlf() =~= (line + crlf()).subrange(line.len() as int, (line.len() + 2) as int));
    lemma_split_whole(version, ' ');
    lemma_split_first(target, ' ', version);
    lemma_split_first(method, ' ', target + seq![' '] + version);
    assert(line =~= method + seq![' '] + (target + seq![' '] + version));
    assert(seq![method] + (seq![target] + seq![version]) =~= seq![method, target, version]);
}

/// A request line is its method, its target and its version with one
/// space between each two, and none of the three holds a space.
pub proof fn lemma_request_line_parts(line: Seq<char>)
    requires
        is_request_line(line),
    ensures
        ({
            let r = RequestView { request_line: line, param: None, headers: Map::empty(), body: None };
            &&& line == r.method() + seq![' '] + r.target() + seq![' '] + r.version()
            &&& !r.method().contains(' ')
            &&& !r.target().contains(' ')
            &&& !r.version().contains(' ')
        }),
{
    lemma_join_split(line, ' ');
    let parts = split(line, ' ');
    assert(join(parts.drop_first().drop_first(), ' ') == parts[2]);
    assert(join(parts.drop_first(), ' ') == parts[1] + seq![' '] + parts[2]);
    assert(parts[0] + seq![' '] + (parts[1] + seq![' '] + parts[2]) =~= parts[0] + seq![' ']
        + parts[1] + seq![' '] + parts[2]);
}

/// The mathematical form of a request.
pub struct RequestView {
    pub request_line: Seq<char>,
    pub param: Option<Seq<char>>,
    pub headers: FieldMap,
    pub body: Option<Seq<u8>>,
}

impl RequestView {
    /// The first part of the request line.
    pub open spec fn method(self) -> Seq<char> {
        split(self.request_line, ' ')[0]
    }

    /// The second part of the request line.
    pub open spec fn target(self) -> Seq<char> {
        split(self.request_line, ' ')[1]
    }

    /// The third part of the request line.
    pub open spec fn version(self) -> Seq<char> {
        split(self.request_line, ' ')[2]
    }
}

/// Whether a request with the method that `token` names carries a body.
pub open spec fn carries_body(token: Seq<char>) -> bool {
    HttpMethod::named(token) == Ok::<HttpMethod, ()>(HttpMethod::Post)
}

struct RequestLine<'a> {
    line: &'a str,
}

impl<'a> RequestLine<'a> {
    fn new(line: &'a str) -> (r: Self)
        ensures
            r.line@ == line@,
    {
        Self { line }
    }

    /// The part of the line at position `n`, counted from 0.
    fn part(&self, n: usize) -> (r: &'a str)
        requires
            n < split(self.line@, ' ').len(),
        ensures
            r@ == split(self.line@, ' ')[n as int],
    {
        let parts = str_split(self.line, ' ');
        proof {
            assert(views(parts@)[n as int] == parts@[n as int]@);
        }
        parts[n]
    }

    fn http_method(&self) -> (r: &'a str)
        requires
            is_request_line(self.line@),
        ensures
            r@ == split(self.line@, ' ')[0],
    {
        self.part(0)
    }

    fn request_target(&self) -> (r: &'a str)
        requires
            is_request_line(self.line@),
        ensures
            r@ == split(self.line@, ' ')[1],
    {
        self.part(1)
    }

    fn http_version(&self) -> (r: &'a str)
        requires
            is_request_line(self.line@),
        ensures
            r@ == split(self.line@, ' ')[2],
    {
        self.part(2)
    }
}

/// Whether `line` is a request line: three parts, none of them empty, with
/// one space between each two.
pub fn check_request_line(line: &str) -> (b: bool)
    ensures
        b == is_request_line(line@),
{
    let parts = str_split(line, ' ');
    proof {
        assert forall|i: int| 0 <= i < parts@.len() implies views(parts@)[i] == (
        #[trigger] parts@[i])@ by {}
    }
    parts.len() == 3 && parts[0].unicode_len() > 0 && parts[1].unicode_len() > 0
        && parts[2].unicode_len() > 0
}

#[derive(Debug)]
pub struct Request {
    request_line: String,
    param: Option<String>,
    headers: Headers,
    body: Option<Vec<u8>>,
}

impl View for Request {
    type V = RequestView;

    closed spec fn view(&self) -> RequestView {
        RequestView {
            request_line: self.request_line@,
            param: match self.param {
                Some(p) => Some(p@),
                None => None,
            },
            headers: self.headers@,
            body: match self.body {
                Some(b) => Some(b@),
                None => None,
            },
        }
    }
}

impl Request {
    #[verifier::type_invariant]
    spec fn inv(self) -> bool {
        is_request_line(self.request_line@)
    }

    /// A request with the given request line, which must have its three
    /// parts.
    pub fn new(
        request_line: String,
        param: Option<String>,
        headers: Headers,
        body: Option<Vec<u8>>,
    ) -> (r: Self)
        requires
            is_request_line(request_line@),
        ensures
            r@ == (RequestView {
                request_line: request_line@,
                param: match param {
                    Some(p) => Some(p@),
                    None => None,
                },
                headers: headers@,
                body: match body {
                    Some(b) => Some(b@),
                    None => None,
                },
            }),
    {
        Self { request_line, param, headers, body }
    }

    pub fn get_http_method(&self) -> (r: &str)
        ensures
            r@ == self@.method(),
            is_request_line(self@.request_line),
    {
        proof {
            use_type_invariant(self);
        }
        RequestLine::new(self.request_line.as_str()).http_method()
    }

    pub fn get_request_target(&self) -> (r: &str)
        ensures
            r@ == self@.target(),
            is_request_line(self@.request_line),
    {
        proof {
            use_type_invariant(self);
        }
        RequestLine::new(self.request_line.as_str()).request_target()
    }

    pub fn get_http_version(&self) -> (r: &str)
        ensures
            r@ == self@.version(),
            is_request_line(self@.request_line),
    {
        proof {
            use_type_invariant(self);
        }
        RequestLine::new(self.request_line.as_str()).http_version()
    }

    pub fn get_param(&self) -> (r: Option<&str>)
        ensures
            match r {
                Some(p) => self@.param == Some(p@),
                None => self@.param is None,
            },
    {
        match &self.param {
            Some(p) => Some(p.as_str()),
            None => None,
        }
    }

    pub fn set_param(&mut self, param: String)
        ensures
            final(self)@ == (RequestView { param: Some(param@), ..old(self)@ }),
    {
        proof {
            use_type_invariant(&*self);
        }
        self.param = Some(param);
    }

    pub fn get_headers(&self) -> (h: &Headers)
        ensures
            h@ == self@.headers,
    {
        &self.headers
    }

    pub fn get_body(&self) -> (r: Option<&[u8]>)
        ensures
            match r {
                Some(b) => self@.body == Some(b@),
                None => self@.body is None,
            },
    {
        match &self.body {
            Some(b) => Some(b.as_slice()),
            None => None,
        }
    }
}

/// What reading the header lines gives, and the stream after it.
pub enum HeadersRead {
    Incomplete,
    Failed(RequestError, Stream),
    Done(FieldMap, Stream),
}

/// What reading a request gives, and the stream after it.
pub enum RequestRead {
    /// More bytes have to arrive first: the stream is as before.
    Incomplete,
    Failed(RequestError, Stream),
    Done(RequestView, Stream),
}

/// Reads header lines from `s` and adds their fields to `acc`, up to the
/// empty line. Each line must end with CR LF and, unless it is empty
/// before that, hold a colon: the field's name stands before the first
/// colon and its values after it. The name is kept in lower case; only the
/// ASCII letters `A` to `Z` are folded, other characters stay as they are.
///
/// Where the budget is used up before the empty line, the request is
/// invalid, also where that happens at the end of a line. The end of the
/// file is reported only of a peer that has finished with nothing pending.
pub open spec fn read_headers(s: Stream, acc: FieldMap) -> HeadersRead
    decreases s.limit,
{
    match s.next_line() {
        LineRead::Incomplete => HeadersRead::Incomplete,
        LineRead::EndOfFile => if s.limit == 0 {
            HeadersRead::Failed(RequestError::InvalidRequest(InvalidRequest), s)
        } else {
            HeadersRead::Failed(RequestError::EndOfFile(EndOfFile), s)
        },
        LineRead::InvalidData(after) => HeadersRead::Failed(RequestError::InvalidData, after),
        LineRead::Line(text, after) => match strip_crlf(text) {
            None => HeadersRead::Failed(RequestError::InvalidRequest(InvalidRequest), after),
            Some(line) => if line.len() == 0 {
                HeadersRead::Done(acc, after)
            } else {
                match split_once(line, ':') {
                    None => HeadersRead::Failed(
                        RequestError::InvalidRequest(InvalidRequest),
                        after,
                    ),
                    Some((k, v)) => {
                        proof {
                            lemma_line_within_budget(s);
                        }
                        read_headers(after, inserted(acc, lower(k), line_value(v)))
                    },
                }
            },
        },
    }
}

/// Reads the body of a request with request line `line` and fields
/// `headers` from `s`. A request whose method carries a body must announce
/// its length in one `content-length` field, and that many bytes must
/// follow within the budget.
pub open spec fn read_body(line: Seq<char>, headers: FieldMap, s: Stream) -> RequestRead {
    let bare = RequestView { request_line: line, param: None, headers, body: None };
    if carries_body(bare.method()) {
        match content_length(headers) {
            Ok(Some(n)) => match s.next_bytes(n as nat) {
                BytesRead::Incomplete => RequestRead::Incomplete,
                BytesRead::UnexpectedEof(after) => RequestRead::Failed(
                    RequestError::InvalidRequest(InvalidRequest),
                    after,
                ),
                BytesRead::Bytes(bytes, after) => RequestRead::Done(
                    RequestView { body: Some(bytes), ..bare },
                    after,
                ),
            },
            _ => RequestRead::Failed(RequestError::InvalidRequest(InvalidRequest), s),
        }
    } else {
        RequestRead::Done(bare, s)
    }
}

/// Reads one request from `s`: the request line within its budget, the
/// header lines within theirs, and the body within its own.
pub open spec fn read_request(s: Stream) -> RequestRead {
    let start = s.with_limit(REQUEST_LINE_LIMIT as nat);
    match start.next_line() {
        LineRead::Incomplete => RequestRead::Incomplete,
        LineRead::EndOfFile => RequestRead::Failed(RequestError::EndOfFile(EndOfFile), start),
        LineRead::InvalidData(after) => RequestRead::Failed(RequestError::InvalidData, after),
        LineRead::Line(text, after) => match strip_crlf(text) {
            None => RequestRead::Failed(RequestError::InvalidRequest(InvalidRequest), after),
            Some(line) => if !is_request_line(line) {
                RequestRead::Failed(RequestError::InvalidRequest(InvalidRequest), after)
            } else {
                match read_headers(after.with_limit(HEADER_BLOCK_LIMIT as nat), Map::empty()) {
                    HeadersRead::Incomplete => RequestRead::Incomplete,
                    HeadersRead::Failed(e, stopped) => RequestRead::Failed(e, stopped),
                    HeadersRead::Done(headers, rest) => read_body(
                        line,
                        headers,
                        rest.with_limit(BODY_LIMIT as nat),
                    ),
                }
            },
        },
    }
}

/// A failure to read the header lines is never the want of more bytes.
pub proof fn lemma_headers_failure(s: Stream, acc: FieldMap)
    ensures
        read_headers(s, acc) matches HeadersRead::Failed(e, _) ==> e != RequestError::Incomplete,
    decreases s.limit,
{
    lemma_line_within_budget(s);
    match s.next_line() {
        LineRead::Line(text, after) => match strip_crlf(text) {
            Some(line) => if line.len() != 0 {
                match split_once(line, ':') {
                    Some((k, v)) => {
                        lemma_headers_failure(after, inserted(acc, lower(k), line_value(v)));
                    },
                    None => {},
                }
            },
            None => {},
        },
        _ => {},
    }
}

/// A failure to read a request is never the want of more bytes: where more
/// bytes are wanted, the outcome is `Incomplete` and nothing else.
pub proof fn lemma_request_failure(s: Stream)
    ensures
        read_request(s) matches RequestRead::Failed(e, _) ==> e != RequestError::Incomplete,
{
    let start = s.with_limit(REQUEST_LINE_LIMIT as nat);
    match start.next_line() {
        LineRead::Line(text, after) => {
            lemma_headers_failure(after.with_limit(HEADER_BLOCK_LIMIT as nat), Map::empty());
        },
        _ => {},
    }
}

/// Reading the header lines consumes bytes from the front of the stream,
/// no more of them than the budget, and takes them off the budget.
pub proof fn lemma_headers_within_budget(s: Stream, acc: FieldMap)
    ensures
        match read_headers(s, acc) {
            HeadersRead::Done(_, after) | HeadersRead::Failed(_, after) => {
                let n = s.pending.len() - after.pending.len();
                &&& 0 <= n <= s.limit
                &&& after.limit == s.limit - n
                &&& after.pending == s.pending.skip(n)
                &&& after.closed == s.closed
            },
            HeadersRead::Incomplete => true,
        },
    decreases s.limit,
{
    lemma_line_within_budget(s);
    match s.next_line() {
        LineRead::Line(text, after) => {
            match strip_crlf(text) {
                Some(line) => if line.len() != 0 {
                    match split_once(line, ':') {
                        Some((k, v)) => {
                            let next = inserted(acc, lower(k), line_value(v));
                            lemma_headers_within_budget(after, next);
                            match read_headers(after, next) {
                                HeadersRead::Done(_, last) | HeadersRead::Failed(_, last) => {
                                    let a = s.pending.len() - after.pending.len();
                                    let b = after.pending.len() - last.pending.len();
                                    assert(s.pending.skip(a).skip(b) =~= s.pending.skip(a + b));
                                },
                                HeadersRead::Incomplete => {},
                            }
                        },
                        None => {},
                    }
                },
                None => {},
            }
        },
        LineRead::EndOfFile => {
            assert(s.pending.skip(0) =~= s.pending);
        },
        _ => {},
    }
}

/// Reading a request consumes bytes from the front of the stream: no more
/// than the budget of the request line for that line, no more than the
/// budget of the header block for the header lines, and no more than the
/// budget of the body for the body.
pub proof fn lemma_request_within_budgets(s: Stream)
    ensures
        match read_request(s) {
            RequestRead::Done(_, after) | RequestRead::Failed(_, after) => {
                let n = s.pending.len() - after.pending.len();
                &&& 0 <= n <= REQUEST_LINE_LIMIT + HEADER_BLOCK_LIMIT + BODY_LIMIT
                &&& after.pending == s.pending.skip(n)
                &&& after.closed == s.closed
            },
            RequestRead::Incomplete => true,
        },
        read_request(s) matches RequestRead::Done(request, _) ==> {
            &&& request.request_line.len() + 2 <= REQUEST_LINE_LIMIT
            &&& request.body matches Some(body) ==> body.len() <= BODY_LIMIT
        },
{
    let start = s.with_limit(REQUEST_LINE_LIMIT as nat);
    lemma_line_within_budget(start);
    match start.next_line() {
        LineRead::Line(text, after) => {
            let a = s.pending.len() - after.pending.len();
            lemma_decoded_length(s.pending.take(a));
            match strip_crlf(text) {
                Some(line) => if is_request_line(line) {
                    let block = after.with_limit(HEADER_BLOCK_LIMIT as nat);
                    lemma_headers_within_budget(block, Map::empty());
                    match read_headers(block, Map::empty()) {
                        HeadersRead::Done(headers, rest) => {
                            let b = after.pending.len() - rest.pending.len();
                            assert(s.pending.skip(a).skip(b) =~= s.pending.skip(a + b));
                            let tail = rest.with_limit(BODY_LIMIT as nat);
                            match read_body(line, headers, tail) {
                                RequestRead::Done(_, last) | RequestRead::Failed(_, last) => {
                                    let c = rest.pending.len() - last.pending.len();
                                    assert(s.pending.skip(a + b).skip(c) =~= s.pending.skip(
                                        a + b + c,
                                    ));
                                    assert(rest.pending.skip(0) =~= rest.pending);
                                },
                                RequestRead::Incomplete => {},
                            }
                        },
                        HeadersRead::Failed(_, stopped) => {
                            let b = after.pending.len() - stopped.pending.len();
                            assert(s.pending.skip(a).skip(b) =~= s.pending.skip(a + b));
                        },
                        HeadersRead::Incomplete => {},
                    }
                },
                None => {},
            }
        },
        LineRead::EndOfFile => {
            assert(s.pending.skip(0) =~= s.pending);
        },
        _ => {},
    }
}

/// Whether `e` says that the request is rejected: it is not well formed, is
/// larger than a budget, or is not text.
pub open spec fn rejects(e: RequestError) -> bool {
    e == RequestError::InvalidRequest(InvalidRequest) || e == RequestError::InvalidData
}

/// The end of the file is reported of the header lines only where the peer
/// has finished and nothing is pending. With the budget used up, whatever
/// follows, the request is rejected.
pub proof fn lemma_headers_end_of_file(s: Stream, acc: FieldMap)
    ensures
        read_headers(s, acc) matches HeadersRead::Failed(e, after) ==> (rejects(e) || (e
            == RequestError::EndOfFile(EndOfFile) && after.closed && after.pending.len() == 0
            && after.limit > 0)),
    decreases s.limit,
{
    lemma_line_within_budget(s);
    match s.next_line() {
        LineRead::Line(text, after) => match strip_crlf(text) {
            Some(line) => if line.len() != 0 {
                match split_once(line, ':') {
                    Some((k, v)) => {
                        lemma_headers_end_of_file(after, inserted(acc, lower(k), line_value(v)));
                    },
                    None => {},
                }
            },
            None => {},
        },
        _ => {},
    }
}

/// With as many bytes pending as the budget allows, the header lines are
/// read or the request is rejected: no more bytes are waited for, and the
/// end of the file is not reported.
pub proof fn lemma_headers_decided(s: Stream, acc: FieldMap)
    requires
        s.pending.len() >= s.limit,
    ensures
        match read_headers(s, acc) {
            HeadersRead::Done(_, _) => true,
            HeadersRead::Failed(e, _) => rejects(e),
            HeadersRead::Incomplete => false,
        },
    decreases s.limit,
{
    lemma_line_within_budget(s);
    match s.next_line() {
        LineRead::Line(text, after) => match strip_crlf(text) {
            Some(line) => if line.len() != 0 {
                match split_once(line, ':') {
                    Some((k, v)) => {
                        lemma_headers_decided(after, inserted(acc, lower(k), line_value(v)));
                    },
                    None => {},
                }
            },
            None => {},
        },
        _ => {},
    }
}

/// The end of the file is reported of a request only where the peer has
/// finished and nothing is pending: at the start of the request, or after
/// a line of its head.
pub proof fn lemma_end_of_file_is_clean(s: Stream)
    ensures
        read_request(s) matches RequestRead::Failed(e, after) ==> (rejects(e) || (e
            == RequestError::EndOfFile(EndOfFile) && after.closed && after.pending.len() == 0)),
{
    let start = s.with_limit(REQUEST_LINE_LIMIT as nat);
    lemma_line_within_budget(start);
    match start.next_line() {
        LineRead::Line(text, after) => {
            lemma_headers_end_of_file(after.with_limit(HEADER_BLOCK_LIMIT as nat), Map::empty());
        },
        _ => {},
    }
}

/// A first line without a line feed in the bytes of its budget is rejected,
/// and just the bytes of the budget are consumed.
pub proof fn lemma_request_line_beyond_budget(s: Stream)
    requires
        s.pending.len() >= REQUEST_LINE_LIMIT,
        forall|i: int| 0 <= i < REQUEST_LINE_LIMIT ==> s.pending[i] != 10u8,
    ensures
        read_request(s) matches RequestRead::Failed(e, after) && rejects(e) && after.pending
            == s.pending.skip(REQUEST_LINE_LIMIT as int),
{
    let start = s.with_limit(REQUEST_LINE_LIMIT as nat);
    let w = start.pending.take(REQUEST_LINE_LIMIT as int);
    assert forall|i: int| 0 <= i < REQUEST_LINE_LIMIT implies w[i] != 10u8 by {
        assert(w[i] == s.pending[i]);
    }
    lemma_first_index_is(w, 10u8, REQUEST_LINE_LIMIT as int);
    match start.next_line() {
        LineRead::Line(text, after) => {
            let bytes = start.pending.take(REQUEST_LINE_LIMIT as int);
            lemma_decoded_ends(bytes);
            assert(!crlf().is_suffix_of(text)) by {
                if crlf().is_suffix_of(text) {
                    assert(text.last() == crlf()[1]);
                }
            }
        },
        _ => {},
    }
}

/// A body that is announced as longer than its budget is not read: the
/// request is rejected once the bytes of the budget are pending or the peer
/// has finished, and until then more bytes are waited for.
pub proof fn lemma_body_beyond_budget(line: Seq<char>, headers: FieldMap, s: Stream, n: usize)
    requires
        carries_body(split(line, ' ')[0]),
        content_length(headers) == Ok::<Option<usize>, HeaderError>(Some(n)),
        n > BODY_LIMIT,
        s.limit == BODY_LIMIT,
    ensures
        match read_body(line, headers, s) {
            RequestRead::Done(_, _) => false,
            RequestRead::Failed(e, _) => e == RequestError::InvalidRequest(InvalidRequest) && (
            s.pending.len() >= BODY_LIMIT || s.closed),
            RequestRead::Incomplete => s.pending.len() < BODY_LIMIT && !s.closed,
        },
{
}

/// With as many bytes pending as the three budgets allow together, a
/// request is read or rejected: no more bytes are waited for, and the end
/// of the file is not reported.
pub proof fn lemma_request_decided(s: Stream)
    requires
        s.pending.len() >= REQUEST_LINE_LIMIT + HEADER_BLOCK_LIMIT + BODY_LIMIT,
    ensures
        match read_request(s) {
            RequestRead::Done(_, _) => true,
            RequestRead::Failed(e, _) => rejects(e),
            RequestRead::Incomplete => false,
        },
{
    let start = s.with_limit(REQUEST_LINE_LIMIT as nat);
    lemma_line_within_budget(start);
    match start.next_line() {
        LineRead::Line(text, after) => {
            let block = after.with_limit(HEADER_BLOCK_LIMIT as nat);
            lemma_headers_decided(block, Map::empty());
            lemma_headers_within_budget(block, Map::empty());
        },
        _ => {},
    }
}

/// A request that was read has a request line of three parts and no
/// parameter. It has a body exactly when its method carries one, and the
/// body is as long as the field `content-length` says.
pub proof fn lemma_request_read(s: Stream)
    ensures
        read_request(s) matches RequestRead::Done(request, _) ==> {
            &&& is_request_line(request.request_line)
            &&& request.param is None
            &&& request.body is Some <==> carries_body(request.method())
            &&& request.body matches Some(body) ==> content_length(request.headers) == Ok::<
                Option<usize>,
                HeaderError,
            >(Some(body.len() as usize))
        },
{
}

/// The bytes of a request without header fields and without a body: the
/// request line, a line end, and the line end of the empty line.
pub open spec fn bare_request(method: Seq<char>, target: Seq<char>, version: Seq<char>) -> Seq<u8> {
    encode_utf8(method + seq![' '] + target + seq![' '] + version + crlf() + crlf())
}

/// A request line within its budget, followed by an empty line, is read as
/// a request with the method, the target and the version that were
/// written, letter for letter, and the bytes after it are left for the next
/// read.
pub proof fn lemma_bare_request_is_read(
    method: Seq<char>,
    target: Seq<char>,
    version: Seq<char>,
    s: Stream,
    more: Seq<u8>,
)
    requires
        method.len() > 0 && !method.contains(' ') && !method.contains('\n'),
        target.len() > 0 && !target.contains(' ') && !target.contains('\n'),
        version.len() > 0 && !version.contains(' ') && !version.contains('\n'),
        bare_request(method, target, version).len() <= REQUEST_LINE_LIMIT + 2,
        !carries_body(method),
        s.pending == bare_request(method, target, version) + more,
    ensures
        read_request(s) == RequestRead::Done(
            RequestView {
                request_line: method + seq![' '] + target + seq![' '] + version,
                param: None,
                headers: Map::empty(),
                body: None,
            },
            Stream { pending: more, limit: BODY_LIMIT as nat, closed: s.closed },
        ),
        (RequestView {
            request_line: method + seq![' '] + target + seq![' '] + version,
            param: None,
            headers: Map::empty(),
            body: None,
        }).method() == method,
        (RequestView {
            request_line: method + seq![' '] + target + seq![' '] + version,
            param: None,
            headers: Map::empty(),
            body: None,
        }).target() == target,
        (RequestView {
            request_line: method + seq![' '] + target + seq![' '] + version,
            param: None,
            headers: Map::empty(),
            body: None,
        }).version() == version,
{
    let line = method + seq![' '] + target + seq![' '] + version;
    lemma_request_line_round_trip(method, target, version);
    lemma_line_without_feed(method, target, version);
    let end = encode_utf8(crlf());
    assert(end.len() == 2) by {
        assert(is_ascii_chars(crlf()));
        is_ascii_chars_encode_utf8(crlf());
    }
    lemma_encode_concat(line + crlf(), crlf());

    // The request line.
    let start = s.with_limit(REQUEST_LINE_LIMIT as nat);
    assert(start.pending =~= encode_utf8(line + crlf()) + (end + more));
    lemma_crlf_line_is_read(start, line, end + more);
    let after = Stream {
        pending: end + more,
        limit: (REQUEST_LINE_LIMIT - encode_utf8(line + crlf()).len()) as nat,
        closed: s.closed,
    };

    // The empty line.
    let block = after.with_limit(HEADER_BLOCK_LIMIT as nat);
    let empty = Seq::<char>::empty();
    assert(empty + crlf() =~= crlf());
    lemma_crlf_line_is_read(block, empty, more);
}

/// The header line that announces a body of `n` bytes.
pub open spec fn length_line(n: nat) -> Seq<char> {
    "Content-Length: "@ + decimal(n)
}

/// The bytes of a request with a body and no other header field than the
/// one that announces the body's length.
pub open spec fn request_with_body(
    method: Seq<char>,
    target: Seq<char>,
    version: Seq<char>,
    body: Seq<u8>,
) -> Seq<u8> {
    encode_utf8(method + seq![' '] + target + seq![' '] + version + crlf()) + encode_utf8(
        length_line(body.len()) + crlf(),
    ) + encode_utf8(crlf()) + body
}

/// The fields of a request whose only header line announces a body of `n`
/// bytes.
pub open spec fn length_fields(n: nat) -> FieldMap {
    Map::<Seq<char>, ValueView<Seq<char>>>::empty().insert(
        "content-length"@,
        ValueView::Scalar(decimal(n)),
    )
}

/// A request line of three parts without a line feed in them holds none.
proof fn lemma_line_without_feed(method: Seq<char>, target: Seq<char>, version: Seq<char>)
    requires
        !method.contains('\n'),
        !target.contains('\n'),
        !version.contains('\n'),
    ensures
        !(method + seq![' '] + target + seq![' '] + version).contains('\n'),
{
    let line = method + seq![' '] + target + seq![' '] + version;
    if line.contains('\n') {
        let j = choose|j: int| 0 <= j < line.len() && line[j] == '\n';
        if j < method.len() {
            assert(line[j] == method[j]);
            assert(method.contains(method[j]));
        } else if j == method.len() {
        } else if j < method.len() + 1 + target.len() {
            let k = j - method.len() - 1;
            assert(line[j] == target[k]);
            assert(target.contains(target[k]));
        } else if j == method.len() + 1 + target.len() {
        } else {
            let k = j - method.len() - target.len() - 2;
            assert(line[j] == version[k]);
            assert(version.contains(version[k]));
        }
    }
}

/// A line that ends with CR LF and is written within the budget is read as
/// it was written, and the bytes after it are left pending.
pub proof fn lemma_crlf_line_is_read(s: Stream, text: Seq<char>, rest: Seq<u8>)
    requires
        !text.contains('\n'),
        s.pending == encode_utf8(text + crlf()) + rest,
        encode_utf8(text + crlf()).len() <= s.limit,
    ensures
        s.next_line() == LineRead::Line(
            text + crlf(),
            Stream {
                pending: rest,
                limit: (s.limit - encode_utf8(text + crlf()).len()) as nat,
                closed: s.closed,
            },
        ),
        strip_crlf(text + crlf()) == Some(text),
{
    assert(text + crlf() =~= text.push('\r').push('\n'));
    assert(!text.push('\r').contains('\n')) by {
        if text.push('\r').contains('\n') {
            let j = choose|j: int| 0 <= j < text.len() + 1 && text.push('\r')[j] == '\n';
            assert(text[j] == '\n');
        }
    }
    lemma_line_is_read(s, text.push('\r'), rest);
    assert((text + crlf()).take((text + crlf()).len() - 2) =~= text);
    assert(crlf() =~= (text + crlf()).subrange(text.len() as int, (text.len() + 2) as int));
}

/// The header line that announces a body within the budget of bodies is
/// short, holds no line feed, and gives the field `content-length` with
/// the length as its one value.
proof fn lemma_length_line(n: nat)
    requires
        n <= BODY_LIMIT,
    ensures
        length_line(n).len() > 0,
        !length_line(n).contains('\n'),
        encode_utf8(length_line(n) + crlf()).len() <= 22,
        split_once(length_line(n), ':') matches Some((k, v)) && inserted(
            Map::empty(),
            lower(k),
            line_value(v),
        ) == length_fields(n),
        content_length(length_fields(n)) == Ok::<Option<usize>, HeaderError>(Some(n as usize)),
{
    let field = length_line(n);
    let value = seq![' '] + decimal(n);
    let name = "Content-Length"@;
    lemma_decimal_round_trip(n);
    lemma_trim_plain(decimal(n));
    reveal_strlit("Content-Length: ");
    reveal_strlit("content-length");
    reveal_strlit("Content-Length");
    assert(field =~= name + seq![':'] + value);
    assert(!field.contains('\n')) by {
        if field.contains('\n') {
            let j = choose|j: int| 0 <= j < field.len() && field[j] == '\n';
            if j >= 16 {
                assert(field[j] == decimal(n)[j - 16]);
                assert(decimal(n).contains(decimal(n)[j - 16]));
            }
        }
    }
    assert(decimal(n).len() <= 4) by {
        reveal_with_fuel(decimal, 5);
    }
    assert(is_ascii_chars(field + crlf())) by {
        assert forall|j: int| 0 <= j < (field + crlf()).len() implies '\0' <= #[trigger] (field
            + crlf())[j] <= '\u{7f}' by {
            if 16 <= j < field.len() {
                assert(field[j] == decimal(n)[j - 16]);
                assert(is_digit(decimal(n)[j - 16]));
            }
        }
    }
    is_ascii_chars_encode_utf8(field + crlf());
    assert forall|j: int| 0 <= j < 14 implies field[j] != ':' by {
        assert(field[j] == name[j]);
    }
    lemma_first_index_is(field, ':', 14);
    assert(field.take(14) =~= name);
    assert(field.skip(15) =~= value);
    assert(lower(name) =~= "content-length"@);
    assert(!value.contains(',')) by {
        if value.contains(',') {
            let j = choose|j: int| 0 <= j < value.len() && value[j] == ',';
            if j >= 1 {
                assert(value[j] == decimal(n)[j - 1]);
                assert(decimal(n).contains(decimal(n)[j - 1]));
            }
        }
    }
    lemma_split_whole(value, ',');
}

/// The header lines of a request whose only field announces the length of
/// its body are read as that field.
proof fn lemma_length_header_is_read(s: Stream, n: nat, rest: Seq<u8>)
    requires
        n <= BODY_LIMIT,
        s.limit >= 24,
        s.pending == encode_utf8(length_line(n) + crlf()) + encode_utf8(crlf()) + rest,
    ensures
        read_headers(s, Map::empty()) matches HeadersRead::Done(fields, after) && fields
            == length_fields(n) && after.pending == rest && after.closed == s.closed,
{
    let field = length_line(n);
    lemma_length_line(n);
    let rest2 = encode_utf8(crlf()) + rest;
    assert(s.pending =~= encode_utf8(field + crlf()) + rest2);
    lemma_crlf_line_is_read(s, field, rest2);
    let after2 = Stream {
        pending: rest2,
        limit: (s.limit - encode_utf8(field + crlf()).len()) as nat,
        closed: s.closed,
    };
    let empty = Seq::<char>::empty();
    assert(empty + crlf() =~= crlf());
    assert(encode_utf8(crlf()).len() == 2) by {
        assert(is_ascii_chars(crlf()));
        is_ascii_chars_encode_utf8(crlf());
    }
    lemma_crlf_line_is_read(after2, empty, rest);
    assert(read_headers(after2, length_fields(n)) matches HeadersRead::Done(fields, after)
        && fields == length_fields(n) && after.pending == rest && after.closed == s.closed);
}

/// A request whose method carries a body, written with the length of the
/// body in the field `Content-Length` and with the body after the empty
/// line, is read with that body, and the bytes after the body are left for
/// the next read.
pub proof fn lemma_request_with_body_is_read(
    method: Seq<char>,
    target: Seq<char>,
    version: Seq<char>,
    body: Seq<u8>,
    s: Stream,
    more: Seq<u8>,
)
    requires
        method.len() > 0 && !method.contains(' ') && !method.contains('\n'),
        target.len() > 0 && !target.contains(' ') && !target.contains('\n'),
        version.len() > 0 && !version.contains(' ') && !version.contains('\n'),
        encode_utf8(method + seq![' '] + target + seq![' '] + version + crlf()).len()
            <= REQUEST_LINE_LIMIT,
        carries_body(method),
        body.len() <= BODY_LIMIT,
        s.pending == request_with_body(method, target, version, body) + more,
    ensures
        read_request(s) == RequestRead::Done(
            RequestView {
                request_line: method + seq![' '] + target + seq![' '] + version,
                param: None,
                headers: length_fields(body.len()),
                body: Some(body),
            },
            Stream { pending: more, limit: (BODY_LIMIT - body.len()) as nat, closed: s.closed },
        ),
{
    let line = method + seq![' '] + target + seq![' '] + version;
    let n = body.len();
    let bytes2 = encode_utf8(length_line(n) + crlf());
    let bytes3 = encode_utf8(crlf());
    lemma_request_line_round_trip(method, target, version);
    lemma_line_without_feed(method, target, version);

    let start = s.with_limit(REQUEST_LINE_LIMIT as nat);
    let rest1 = bytes2 + bytes3 + (body + more);
    assert(start.pending =~= encode_utf8(line + crlf()) + rest1);
    lemma_crlf_line_is_read(start, line, rest1);
    let after1 = Stream {
        pending: rest1,
        limit: (REQUEST_LINE_LIMIT - encode_utf8(line + crlf()).len()) as nat,
        closed: s.closed,
    };

    let block = after1.with_limit(HEADER_BLOCK_LIMIT as nat);
    lemma_length_header_is_read(block, n, body + more);
    lemma_length_line(n);
    let after3 = choose|after: Stream|
        read_headers(block, Map::empty()) == HeadersRead::Done(length_fields(n), after);
    lemma_headers_within_budget(block, Map::empty());

    let tail = after3.with_limit(BODY_LIMIT as nat);
    assert(tail.pending.take(n as int) =~= body);
    assert(tail.pending.skip(n as int) =~= more);
}

/// One line of `reader` without its line end.
fn read_crlf_line(reader: &mut StreamReader) -> (r: Result<String, RequestError>)
    ensures
        match old(reader)@.next_line() {
            LineRead::Incomplete => r == Err::<String, RequestError>(RequestError::Incomplete)
                && final(reader)@ == old(reader)@,
            LineRead::EndOfFile => r == Err::<String, RequestError>(
                RequestError::EndOfFile(EndOfFile),
            ) && final(reader)@ == old(reader)@,
            LineRead::InvalidData(after) => r == Err::<String, RequestError>(
                RequestError::InvalidData,
            ) && final(reader)@ == after,
            LineRead::Line(text, after) => final(reader)@ == after && match strip_crlf(text) {
                None => r == Err::<String, RequestError>(
                    RequestError::InvalidRequest(InvalidRequest),
                ),
                Some(line) => r matches Ok(l) && l@ == line,
            },
        },
{
    let mut buf = String::new();
    match reader.read_line(&mut buf) {
        Err(ReadError::Incomplete) => Err(RequestError::Incomplete),
        Err(ReadError::EndOfFile(e)) => Err(RequestError::EndOfFile(e)),
        Err(_) => Err(RequestError::InvalidData),
        Ok(()) => {
            proof {
                reveal_strlit("\r\n");
                assert("\r\n"@ =~= crlf());
                assert(Seq::<char>::empty() + buf@ =~= buf@);
            }
            match str_strip_suffix(buf.as_str(), "\r\n") {
                None => Err(RequestError::InvalidRequest(InvalidRequest)),
                Some(line) => Ok(line.to_owned()),
            }
        },
    }
}

/// The header lines of `reader`, up to the empty line.
fn read_header_block(reader: &mut StreamReader) -> (r: Result<Headers, RequestError>)
    ensures
        match read_headers(old(reader)@, Map::empty()) {
            HeadersRead::Incomplete => r matches Err(e) && e == RequestError::Incomplete,
            HeadersRead::Failed(e, stopped) => r matches Err(f) && f == e && final(reader)@
                == stopped,
            HeadersRead::Done(headers, rest) => r matches Ok(h) && h@ == headers && final(reader)@
                == rest,
        },
{
    let mut mm: MultiMap<String> = MultiMap::new_empty();
    proof {
        assert(text_map(mm@) =~= Map::<Seq<char>, ValueView<Seq<char>>>::empty());
    }
    loop
        invariant
            read_headers(old(reader)@, Map::empty()) == read_headers(reader@, text_map(mm@)),
        decreases reader@.limit,
    {
        let ghost before = reader@;
        proof {
            lemma_line_within_budget(before);
        }
        let line = match read_crlf_line(reader) {
            Err(RequestError::EndOfFile(e)) => {
                if reader.limit() == 0 {
                    return Err(RequestError::InvalidRequest(InvalidRequest));
                }
                return Err(RequestError::EndOfFile(e));
            },
            Err(e) => {
                return Err(e);
            },
            Ok(line) => line,
        };
        if line.as_str().unicode_len() == 0 {
            return Ok(Headers::new(mm));
        }
        match str_split_once(line.as_str(), ':') {
            None => {
                return Err(RequestError::InvalidRequest(InvalidRequest));
            },
            Some((k, v)) => {
                let key = to_lowercase(k);
                let value = Headers::parse_values_line(v);
                proof {
                    lemma_text_map_inserted(mm@, key@, value@);
                }
                mm.insert(key, value);
            },
        }
    }
}

/// Whether a request with method `method` carries a body.
fn method_carries_body(method: &str) -> (b: bool)
    ensures
        b == carries_body(method@),
{
    match HttpMethod::try_from(method) {
        Ok(HttpMethod::Post) => true,
        _ => false,
    }
}

/// Reads one request from `reader`. Where more bytes have to arrive first,
/// nothing is said of what `reader` has consumed.
fn read_from(reader: &mut StreamReader) -> (r: Result<Request, RequestError>)
    ensures
        match read_request(old(reader)@) {
            RequestRead::Incomplete => r matches Err(e) && e == RequestError::Incomplete,
            RequestRead::Failed(e, stopped) => r matches Err(f) && f == e && final(reader)@
                == stopped,
            RequestRead::Done(request, rest) => r matches Ok(q) && q@ == request && final(reader)@
                == rest,
        },
{
    reader.set_limit(REQUEST_LINE_LIMIT);
    let request_line = read_crlf_line(reader)?;
    if !check_request_line(request_line.as_str()) {
        return Err(RequestError::InvalidRequest(InvalidRequest));
    }
    reader.set_limit(HEADER_BLOCK_LIMIT);
    let headers = read_header_block(reader)?;
    reader.set_limit(BODY_LIMIT);
    let mut body: Option<Vec<u8>> = None;
    if method_carries_body(RequestLine::new(request_line.as_str()).http_method()) {
        let length = match headers.get_content_length() {
            Ok(Some(n)) => n,
            _ => {
                return Err(RequestError::InvalidRequest(InvalidRequest));
            },
        };
        let buf = match reader.read_bytes(length) {
            Err(ReadError::Incomplete) => {
                return Err(RequestError::Incomplete);
            },
            Err(_) => {
                return Err(RequestError::InvalidRequest(InvalidRequest));
            },
            Ok(buf) => buf,
        };
        body = Some(buf);
    }
    Ok(Request::new(request_line, None, headers, body))
}

pub struct RequestReader {
    stream_reader: StreamReader,
}

impl View for RequestReader {
    type V = Stream;

    closed spec fn view(&self) -> Stream {
        self.stream_reader@
    }
}

impl RequestReader {
    /// A reader that has received nothing yet.
    pub fn new() -> (r: Self)
        ensures
            r@.pending == Seq::<u8>::empty(),
            !r@.closed,
    {
        Self { stream_reader: StreamReader::new() }
    }

    /// Takes in bytes that have arrived from the peer.
    pub fn feed(&mut self, bytes: &[u8])
        ensures
            final(self)@ == (Stream { pending: old(self)@.pending + bytes@, ..old(self)@ }),
    {
        self.stream_reader.feed(bytes);
    }

    /// Notes that the peer has finished: no more bytes will arrive.
    pub fn close(&mut self)
        ensures
            final(self)@ == (Stream { closed: true, ..old(self)@ }),
    {
        self.stream_reader.close();
    }

    /// Reads one request from the bytes received. Where they do not hold a
    /// whole request yet and the peer has not finished, nothing is
    /// consumed, and the read can be made again after more bytes have come
    /// in.
    ///
    /// A request that does not fit its budgets is invalid, wherever the
    /// budget ends. The end of the file is reported only of a peer that has
    /// finished with nothing pending. Header names are kept in lower case,
    /// folded by ASCII only.
    pub fn read(&mut self) -> (r: Result<Request, RequestError>)
        ensures
            match read_request(old(self)@) {
                RequestRead::Incomplete => r matches Err(e) && e == RequestError::Incomplete
                    && final(self)@ == old(self)@,
                RequestRead::Failed(e, stopped) => r matches Err(f) && f == e && final(self)@
                    == stopped,
                RequestRead::Done(request, rest) => r matches Ok(q) && q@ == request
                    && final(self)@ == rest,
            },
    {
        proof {
            lemma_request_failure(self@);
        }
        let mut attempt = self.stream_reader.snapshot();
        let r = read_from(&mut attempt);
        match r {
            Err(RequestError::Incomplete) => Err(RequestError::Incomplete),
            other => {
                self.stream_reader = attempt;
                other
            },
        }
    }
}

} // verus!
