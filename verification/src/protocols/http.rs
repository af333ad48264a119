//! HTTP as the proxy speaks it: reading a request head from a client and
//! writing requests to an upstream.

use crate::error::ProxyError;
use crate::protocols::{copy_bytes, Action, ActionView, Event, EventView, Wait};
use crate::text::{
    bounded_decimal, chars_of, decimal_repr, encode_text, find_char, first_named, index_of,
    last_index_of, lemma_first_named, lowercase_of, parse_bounded, push_chars, push_decimal,
    push_str, rfind_char, skip_ws, skip_ws_from, starts_with, str_eq, string_of_range, take_token,
    to_lowercase, token_end, trim_range, trimmed,
};
use base64::Engine;
use vstd::prelude::*;
use vstd::slice::slice_subrange;
use vstd::string::*;
use vstd::utf8::{decode_utf8, encode_utf8, valid_utf8};

verus! {

/// What the proxy itself says to a client, each with the blank line that
/// ends the reply.
pub const HTTP_SERVER_ERROR: &'static str = "HTTP/1.1 500 Internal Server Error\r\n\r\n";

pub const HTTP_CONNECTION_ESTABLISHED: &'static str = "HTTP/1.1 200 Connection Established\r\n\r\n";

pub const HTTP_BAD_REQUEST: &'static str = "HTTP/1.1 400 Bad Request\r\n\r\n";

pub const HTTP_METHOD_NOT_ALLOWED: &'static str = "HTTP/1.1 405 Method Not Allowed\r\n\r\n";

/// Seconds allowed for each read while a request head comes in.
pub const REQUEST_READ_TIMEOUT_SECS: u64 = 30;

/// Seconds allowed for each read of an upstream proxy's answer.
pub const UPSTREAM_READ_TIMEOUT_SECS: u64 = 10;

/// A request head as read from a client, with the body bytes that were
/// read along with it. Header names are lowercase and occur once each, in the
/// order in which they first came.
#[derive(Debug, PartialEq, Eq)]
pub struct HttpRequest {
    pub method: String,
    pub target: String,
    pub headers: Vec<(String, String)>,
    pub body: Vec<u8>,
}

pub struct HttpRequestView {
    pub method: Seq<char>,
    pub target: Seq<char>,
    pub headers: Seq<(Seq<char>, Seq<char>)>,
    pub body: Seq<u8>,
}

/// The header list as names and values.
pub open spec fn headers_view(headers: Seq<(String, String)>) -> Seq<(Seq<char>, Seq<char>)> {
    Seq::new(headers.len(), |i: int| (headers[i].0@, headers[i].1@))
}

impl View for HttpRequest {
    type V = HttpRequestView;

    open spec fn view(&self) -> HttpRequestView {
        HttpRequestView {
            method: self.method@,
            target: self.target@,
            headers: headers_view(self.headers@),
            body: self.body@,
        }
    }
}

pub open spec fn header_names(headers: Seq<(Seq<char>, Seq<char>)>) -> Seq<Seq<char>> {
    Seq::new(headers.len(), |i: int| headers[i].0)
}

/// The value of the first header called `name`.
pub open spec fn header_value(headers: Seq<(Seq<char>, Seq<char>)>, name: Seq<char>) -> Option<
    Seq<char>,
> {
    let at = first_named(header_names(headers), name);
    if at < headers.len() {
        Some(headers[at].1)
    } else {
        None
    }
}

/// `headers` with `name` set to `value`: in place where the name is already
/// there, at the end where it is new.
pub open spec fn with_header(
    headers: Seq<(Seq<char>, Seq<char>)>,
    name: Seq<char>,
    value: Seq<char>,
) -> Seq<(Seq<char>, Seq<char>)> {
    let at = first_named(header_names(headers), name);
    if at < headers.len() {
        headers.update(at, (name, value))
    } else {
        headers.push((name, value))
    }
}

/// Method and target of a request line, which must hold exactly three
/// tokens separated by whitespace.
pub open spec fn request_line(line: Seq<char>) -> Option<(Seq<char>, Seq<char>)> {
    let a = skip_ws(line);
    let method = take_token(a);
    let b = skip_ws(a.skip(method.len() as int));
    let target = take_token(b);
    let c = skip_ws(b.skip(target.len() as int));
    let version = take_token(c);
    let rest = skip_ws(c.skip(version.len() as int));
    if method.len() > 0 && target.len() > 0 && version.len() > 0 && rest.len() == 0 {
        Some((method, target))
    } else {
        None
    }
}

/// A line with nothing but whitespace ends the headers; so does the end of
/// the stream, which reads as an empty line.
pub open spec fn is_blank(line: Seq<char>) -> bool {
    skip_ws(line).len() == 0
}

/// Name and value of a header line: what stands before and after the first
/// colon, trimmed, the name in lowercase. A line without a colon is no
/// header.
pub open spec fn header_of(line: Seq<char>) -> Option<(Seq<char>, Seq<char>)> {
    let colon = find_char(line, ':');
    if colon < line.len() {
        Some((lowercase_of(trimmed(line.take(colon))), trimmed(line.skip(colon + 1))))
    } else {
        None
    }
}

/// The headers after one more header line.
pub open spec fn with_header_line(headers: Seq<(Seq<char>, Seq<char>)>, line: Seq<char>) -> Seq<
    (Seq<char>, Seq<char>),
> {
    match header_of(line) {
        Some((name, value)) => with_header(headers, name, value),
        None => headers,
    }
}

pub open spec fn content_length_name() -> Seq<char> {
    "content-length"@
}

/// The number of body bytes that the headers announce: the value of
/// `content-length` where it is a decimal number that fits `usize`, else 0.
pub open spec fn content_length(headers: Seq<(Seq<char>, Seq<char>)>) -> nat {
    match header_value(headers, content_length_name()) {
        Some(value) => match bounded_decimal(value, usize::MAX as nat) {
            Some(n) => n,
            None => 0,
        },
        None => 0,
    }
}

/// The number of body bytes that are read along with the head: what the
/// headers announce, and none for CONNECT, where whatever follows the head
/// belongs to the tunnel.
pub open spec fn body_length(method: Seq<char>, headers: Seq<(Seq<char>, Seq<char>)>) -> nat {
    if is_connect(method) {
        0
    } else {
        content_length(headers)
    }
}

impl Clone for HttpRequest {
    fn clone(&self) -> (copy: Self)
        ensures
            copy@ == self@,
    {
        let mut headers: Vec<(String, String)> = Vec::new();
        let mut i: usize = 0;
        while i < self.headers.len()
            invariant
                i <= self.headers.len(),
                headers@.len() == i,
                forall|k: int|
                    0 <= k < i ==> (#[trigger] headers@[k]).0@ == self.headers@[k].0@
                        && headers@[k].1@ == self.headers@[k].1@,
            decreases self.headers.len() - i,
        {
            headers.push((self.headers[i].0.clone(), self.headers[i].1.clone()));
            i += 1;
        }
        assert(headers_view(headers@) == headers_view(self.headers@));
        let mut body: Vec<u8> = Vec::new();
        let mut j: usize = 0;
        while j < self.body.len()
            invariant
                j <= self.body.len(),
                body@ == self.body@.take(j as int),
            decreases self.body.len() - j,
        {
            body.push(self.body[j]);
            j += 1;
        }
        assert(self.body@.take(self.body.len() as int) == self.body@);
        HttpRequest { method: self.method.clone(), target: self.target.clone(), headers, body }
    }
}

/// Position of the first header called `name`.
pub fn find_header(headers: &Vec<(String, String)>, name: &str) -> (found: Option<usize>)
    ensures
        match found {
            Some(at) => at < headers.len() && at == first_named(
                header_names(headers_view(headers@)),
                name@,
            ),
            None => first_named(header_names(headers_view(headers@)), name@) == headers.len(),
        },
{
    let ghost names = header_names(headers_view(headers@));
    proof {
        lemma_first_named(names, name@);
    }
    let mut i: usize = 0;
    while i < headers.len()
        invariant
            i <= headers.len(),
            names == header_names(headers_view(headers@)),
            i <= first_named(names, name@) <= names.len(),
            first_named(names, name@) < names.len() ==> names[first_named(names, name@)] == name@,
            forall|j: int| 0 <= j < first_named(names, name@) ==> names[j] != name@,
        decreases headers.len() - i,
    {
        if str_eq(headers[i].0.as_str(), name) {
            assert(names[i as int] == name@);
            return Some(i);
        }
        assert(names[i as int] != name@);
        i += 1;
    }
    None
}

impl HttpRequest {
    /// The value of the header called `name`, which is given in lowercase.
    pub fn header(&self, name: &str) -> (value: Option<&String>)
        ensures
            match value {
                Some(v) => header_value(self@.headers, name@) == Some(v@),
                None => header_value(self@.headers, name@).is_none(),
            },
    {
        match find_header(&self.headers, name) {
            Some(at) => Some(&self.headers[at].1),
            None => None,
        }
    }

    /// Whether there is a header called `name`, which is given in lowercase.
    pub fn has_header(&self, name: &str) -> (present: bool)
        ensures
            present == header_value(self@.headers, name@).is_some(),
    {
        find_header(&self.headers, name).is_some()
    }
}

/// Sets the header `name` to `value`.
pub fn set_header(headers: &mut Vec<(String, String)>, name: String, value: String)
    ensures
        headers_view(final(headers)@) == with_header(headers_view(old(headers)@), name@, value@),
{
    match find_header(headers, name.as_str()) {
        Some(at) => {
            headers.set(at, (name, value));
            assert(headers_view(headers@) == headers_view(old(headers)@).update(
                at as int,
                (name@, value@),
            ));
        },
        None => {
            headers.push((name, value));
            assert(headers_view(headers@) == headers_view(old(headers)@).push((name@, value@)));
        },
    }
}

/// Reads a request line.
pub fn parse_request_line(line: &[char]) -> (r: Option<(String, String)>)
    ensures
        match r {
            Some((method, target)) => request_line(line@) == Some((method@, target@)),
            None => request_line(line@).is_none(),
        },
{
    let m0 = skip_ws_from(line, 0);
    assert(line@.skip(0) == line@);
    let m1 = token_end(line, m0);
    let ghost a = skip_ws(line@);
    assert(a.skip((m1 - m0) as int) == line@.skip(m1 as int));
    let t0 = skip_ws_from(line, m1);
    let t1 = token_end(line, t0);
    let ghost b = line@.skip(t0 as int);
    assert(b.skip((t1 - t0) as int) == line@.skip(t1 as int));
    let v0 = skip_ws_from(line, t1);
    let v1 = token_end(line, v0);
    let ghost c = line@.skip(v0 as int);
    assert(c.skip((v1 - v0) as int) == line@.skip(v1 as int));
    let end = skip_ws_from(line, v1);
    if m1 > m0 && t1 > t0 && v1 > v0 && end == line.len() {
        Some((string_of_range(line, m0, m1), string_of_range(line, t0, t1)))
    } else {
        None
    }
}

/// Whether a line ends the headers.
pub fn is_blank_line(line: &[char]) -> (blank: bool)
    ensures
        blank == is_blank(line@),
{
    let at = skip_ws_from(line, 0);
    assert(line@.skip(0) == line@);
    at == line.len()
}

/// Reads a header line.
pub fn parse_header_line(line: &[char]) -> (r: Option<(String, String)>)
    ensures
        match r {
            Some((name, value)) => header_of(line@) == Some((name@, value@)),
            None => header_of(line@).is_none(),
        },
{
    let colon = index_of(line, ':');
    if colon >= line.len() {
        return None;
    }
    let (k0, k1) = trim_range(line, 0, colon);
    assert(line@.subrange(0, colon as int) == line@.take(colon as int));
    let (v0, v1) = trim_range(line, colon + 1, line.len());
    assert(line@.subrange(colon + 1, line.len() as int) == line@.skip(colon + 1));
    let raw_name = string_of_range(line, k0, k1);
    let name = to_lowercase(raw_name.as_str());
    let value = string_of_range(line, v0, v1);
    Some((name, value))
}

/// Takes one more header line into `headers`.
pub fn apply_header_line(headers: &mut Vec<(String, String)>, line: &[char])
    ensures
        headers_view(final(headers)@) == with_header_line(headers_view(old(headers)@), line@),
{
    match parse_header_line(line) {
        Some((name, value)) => set_header(headers, name, value),
        None => {},
    }
}

/// The number of body bytes that `headers` announce.
pub fn declared_length(headers: &Vec<(String, String)>) -> (n: usize)
    ensures
        n == content_length(headers_view(headers@)),
{
    match find_header(headers, "content-length") {
        Some(at) => {
            let value = chars_of(headers[at].1.as_str());
            match parse_bounded(value.as_slice(), usize::MAX as u64) {
                Some(n) => n as usize,
                None => 0,
            }
        },
        None => 0,
    }
}

/// The number of body bytes to read along with a head.
pub fn body_to_read(method: &str, headers: &Vec<(String, String)>) -> (n: usize)
    ensures
        n == body_length(method@, headers_view(headers@)),
{
    if str_eq(method, "CONNECT") {
        0
    } else {
        declared_length(headers)
    }
}

/// Where the reading of a request head stands.
#[derive(Clone, Copy, Debug, PartialEq, Eq, Structural)]
pub enum ParseState {
    /// Waiting for the request line.
    RequestLine,
    /// Waiting for a header line or the blank line that ends the headers.
    Headers,
    /// Waiting for the body bytes that the headers announced.
    Body,
    /// The head is complete.
    Done,
    /// Reading has failed.
    Failed(ProxyError),
}

pub struct ParserView {
    pub state: ParseState,
    pub request: HttpRequestView,
}

/// Read one more line.
pub open spec fn read_line() -> ActionView {
    ActionView::Exchange { send: seq![], wait: Wait::Line }
}

pub open spec fn parse_failed(parser: ParserView, e: ProxyError) -> (ParserView, ActionView) {
    (ParserView { state: ParseState::Failed(e), ..parser }, ActionView::Fail(e))
}

/// What a line means to the parser.
pub open spec fn on_line(parser: ParserView, line: Seq<char>) -> (ParserView, ActionView) {
    match parser.state {
        ParseState::RequestLine => match request_line(line) {
            Some((method, target)) => (
                ParserView {
                    state: ParseState::Headers,
                    request: HttpRequestView { method, target, ..parser.request },
                },
                read_line(),
            ),
            None => parse_failed(parser, ProxyError::BadRequest),
        },
        ParseState::Headers => if is_blank(line) {
            let n = body_length(parser.request.method, parser.request.headers);
            if n > 0 {
                (
                    ParserView { state: ParseState::Body, ..parser },
                    ActionView::Exchange { send: seq![], wait: Wait::Bytes(n as usize) },
                )
            } else {
                (ParserView { state: ParseState::Done, ..parser }, ActionView::Done)
            }
        } else {
            (
                ParserView {
                    request: HttpRequestView {
                        headers: with_header_line(parser.request.headers, line),
                        ..parser.request
                    },
                    ..parser
                },
                read_line(),
            )
        },
        _ => parse_failed(parser, ProxyError::Io),
    }
}

/// The parser: what follows on `event`, and what to do then. A read that
/// times out fails with `Timeout`, a socket error or anything out of turn
/// with `Io`, a request line without exactly three tokens with `BadRequest`,
/// and cancellation with `Cancelled`.
pub open spec fn parser_transition(parser: ParserView, event: EventView) -> (
    ParserView,
    ActionView,
) {
    match parser.state {
        ParseState::Done => (parser, ActionView::Done),
        ParseState::Failed(e) => (parser, ActionView::Fail(e)),
        _ => match event {
            EventView::TimedOut => parse_failed(parser, ProxyError::Timeout),
            EventView::IoFailed => parse_failed(parser, ProxyError::Io),
            EventView::Cancelled => parse_failed(parser, ProxyError::Cancelled),
            EventView::Connected => parse_failed(parser, ProxyError::Io),
            EventView::Line(line) => on_line(parser, line),
            EventView::Received(bytes) => if parser.state == ParseState::Body && bytes.len()
                == body_length(parser.request.method, parser.request.headers) {
                (
                    ParserView {
                        state: ParseState::Done,
                        request: HttpRequestView { body: bytes, ..parser.request },
                    },
                    ActionView::Done,
                )
            } else {
                parse_failed(parser, ProxyError::Io)
            },
        },
    }
}

/// Reads one request head, line by line.
pub struct RequestParser {
    state: ParseState,
    request: HttpRequest,
}

impl View for RequestParser {
    type V = ParserView;

    closed spec fn view(&self) -> ParserView {
        ParserView { state: self.state, request: self.request@ }
    }
}

impl RequestParser {
    /// A parser that waits for the request line: the first thing to do is to
    /// read a line.
    pub fn new() -> (parser: RequestParser)
        ensures
            parser@.state == ParseState::RequestLine,
            parser@.request.method == Seq::<char>::empty(),
            parser@.request.target == Seq::<char>::empty(),
            parser@.request.headers == Seq::<(Seq<char>, Seq<char>)>::empty(),
            parser@.request.body == Seq::<u8>::empty(),
    {
        let parser = RequestParser {
            state: ParseState::RequestLine,
            request: HttpRequest {
                method: String::new(),
                target: String::new(),
                headers: Vec::new(),
                body: Vec::new(),
            },
        };
        assert(parser@.request.headers == Seq::<(Seq<char>, Seq<char>)>::empty());
        parser
    }

    pub fn state(&self) -> (state: ParseState)
        ensures
            state == self@.state,
    {
        self.state
    }

    fn fail(&mut self, e: ProxyError) -> (action: Action)
        ensures
            (final(self)@, action@) == parse_failed(old(self)@, e),
    {
        self.state = ParseState::Failed(e);
        Action::Fail(e)
    }

    fn take_line(&mut self, line: &str) -> (action: Action)
        ensures
            (final(self)@, action@) == on_line(old(self)@, line@),
    {
        let chars = chars_of(line);
        match self.state {
            ParseState::RequestLine => match parse_request_line(chars.as_slice()) {
                Some((method, target)) => {
                    self.request.method = method;
                    self.request.target = target;
                    self.state = ParseState::Headers;
                    Action::Exchange { send: Vec::new(), wait: Wait::Line }
                },
                None => self.fail(ProxyError::BadRequest),
            },
            ParseState::Headers => {
                if is_blank_line(chars.as_slice()) {
                    let n = body_to_read(self.request.method.as_str(), &self.request.headers);
                    if n > 0 {
                        self.state = ParseState::Body;
                        Action::Exchange { send: Vec::new(), wait: Wait::Bytes(n) }
                    } else {
                        self.state = ParseState::Done;
                        Action::Done
                    }
                } else {
                    apply_header_line(&mut self.request.headers, chars.as_slice());
                    Action::Exchange { send: Vec::new(), wait: Wait::Line }
                }
            },
            _ => self.fail(ProxyError::Io),
        }
    }

    /// Takes note of `event` and says what to do next.
    pub fn advance(&mut self, event: Event) -> (action: Action)
        ensures
            (final(self)@, action@) == parser_transition(old(self)@, event@),
    {
        match self.state {
            ParseState::Done => { return Action::Done; },
            ParseState::Failed(e) => { return Action::Fail(e); },
            _ => {},
        }
        match event {
            Event::TimedOut => self.fail(ProxyError::Timeout),
            Event::IoFailed => self.fail(ProxyError::Io),
            Event::Cancelled => self.fail(ProxyError::Cancelled),
            Event::Connected => self.fail(ProxyError::Io),
            Event::Line(line) => self.take_line(line.as_str()),
            Event::Received(bytes) => {
                let in_body = match self.state {
                    ParseState::Body => true,
                    _ => false,
                };
                if in_body && bytes.len() == body_to_read(
                    self.request.method.as_str(),
                    &self.request.headers,
                ) {
                    self.request.body = bytes;
                    self.state = ParseState::Done;
                    Action::Done
                } else {
                    self.fail(ProxyError::Io)
                }
            },
        }
    }

    /// The request, once the head is complete.
    pub fn finish(self) -> (request: Option<HttpRequest>)
        ensures
            match request {
                Some(r) => self@.state == ParseState::Done && r@ == self@.request,
                None => self@.state != ParseState::Done,
            },
    {
        match self.state {
            ParseState::Done => Some(self.request),
            _ => None,
        }
    }
}

/// Length of the first line of `input`, its line feed included; where
/// `input` holds no line feed, all of it is one line.
pub open spec fn line_length(input: Seq<u8>) -> int
    decreases input.len(),
{
    if input.len() == 0 {
        0
    } else if input[0] == 0x0Au8 {
        1
    } else {
        1 + line_length(input.drop_first())
    }
}

/// A line is never longer than its input, and never empty unless the
/// input is.
pub proof fn lemma_line_length(input: Seq<u8>)
    ensures
        0 <= line_length(input) <= input.len(),
        input.len() > 0 ==> line_length(input) > 0,
    decreases input.len(),
{
    if input.len() > 0 && input[0] != 0x0Au8 {
        lemma_line_length(input.drop_first());
    }
}

/// The headers that `input` adds to `headers`, and the number of bytes
/// that they take, the blank line included. A line that is not UTF-8 fails
/// with `Io`.
pub open spec fn headers_from(input: Seq<u8>, headers: Seq<(Seq<char>, Seq<char>)>) -> Result<
    (Seq<(Seq<char>, Seq<char>)>, int),
    ProxyError,
>
    decreases input.len(),
{
    let n = line_length(input);
    let raw = input.take(n);
    if !valid_utf8(raw) {
        Err(ProxyError::Io)
    } else if n == 0 || is_blank(decode_utf8(raw)) {
        Ok((headers, n))
    } else {
        proof {
            lemma_line_length(input);
        }
        match headers_from(input.skip(n), with_header_line(headers, decode_utf8(raw))) {
            Ok((all, m)) => Ok((all, n + m)),
            Err(e) => Err(e),
        }
    }
}

/// The request head at the start of `input` and the number of bytes that
/// it takes, body included. Fewer body bytes than the headers announce fail
/// with `Io`. A CONNECT request has no body, whatever its headers say.
pub open spec fn parsed_request(input: Seq<u8>) -> Result<(HttpRequestView, int), ProxyError> {
    let n = line_length(input);
    let raw = input.take(n);
    if !valid_utf8(raw) {
        Err(ProxyError::Io)
    } else {
        match request_line(decode_utf8(raw)) {
            None => Err(ProxyError::BadRequest),
            Some((method, target)) => match headers_from(input.skip(n), Seq::empty()) {
                Err(e) => Err(e),
                Ok((headers, m)) => {
                    let len = body_length(method, headers);
                    if input.len() - n - m < len {
                        Err(ProxyError::Io)
                    } else {
                        Ok(
                            (
                                HttpRequestView {
                                    method,
                                    target,
                                    headers,
                                    body: input.subrange(n + m, n + m + len),
                                },
                                n + m + len,
                            ),
                        )
                    }
                },
            },
        }
    }
}

/// The headers never take more bytes than there are.
pub proof fn lemma_headers_from_bounds(input: Seq<u8>, headers: Seq<(Seq<char>, Seq<char>)>)
    ensures
        headers_from(input, headers) matches Ok((_, m)) ==> 0 <= m <= input.len(),
    decreases input.len(),
{
    let n = line_length(input);
    let raw = input.take(n);
    lemma_line_length(input);
    if valid_utf8(raw) && !(n == 0 || is_blank(decode_utf8(raw))) {
        lemma_headers_from_bounds(input.skip(n), with_header_line(headers, decode_utf8(raw)));
    }
}

/// A CONNECT request never has a body: what follows its head is left for
/// the tunnel.
pub proof fn lemma_connect_has_no_body(input: Seq<u8>)
    ensures
        parsed_request(input) matches Ok((request, _)) ==> (is_connect(request.method)
            ==> request.body.len() == 0),
{
    let n = line_length(input);
    lemma_line_length(input);
    lemma_headers_from_bounds(input.skip(n), Seq::empty());
}

/// The parser asks for no body after the head of a CONNECT request: the
/// blank line ends the reading.
pub proof fn lemma_connect_ends_at_blank_line(parser: ParserView, line: Seq<char>)
    requires
        parser.state == ParseState::Headers,
        is_connect(parser.request.method),
        is_blank(line),
    ensures
        parser_transition(parser, EventView::Line(line)) == (
            ParserView { state: ParseState::Done, ..parser },
            ActionView::Done,
        ),
{
}

/// `core::str::from_utf8`: the text that `bytes` spell, where they are
/// well-formed UTF-8.
#[verifier::external_body]
fn utf8_text(bytes: &[u8]) -> (text: Option<&str>)
    ensures
        match text {
            Some(s) => valid_utf8(bytes@) && s@ == decode_utf8(bytes@),
            None => !valid_utf8(bytes@),
        },
{
    core::str::from_utf8(bytes).ok()
}

/// Index just past the line that begins at `from`.
fn line_end(input: &[u8], from: usize) -> (end: usize)
    requires
        from <= input.len(),
    ensures
        from <= end <= input.len(),
        end - from == line_length(input@.skip(from as int)),
{
    let mut i: usize = from;
    assert(input@.skip(from as int).skip(0) == input@.skip(from as int));
    while i < input.len() && input[i] != 0x0Au8
        invariant
            from <= i <= input.len(),
            line_length(input@.skip(from as int)) == (i - from) + line_length(
                input@.skip(i as int),
            ),
        decreases input.len() - i,
    {
        assert(input@.skip(i as int).drop_first() == input@.skip(i + 1));
        i += 1;
    }
    if i < input.len() {
        i + 1
    } else {
        i
    }
}

/// Reads one request head from the start of `input`: the request line, the
/// headers up to a blank line or the end of `input`, and as many body bytes
/// as `content-length` announces, none for CONNECT. Hands back the request
/// and the number of bytes that it took.
pub fn parse_request(input: &[u8]) -> (r: Result<(HttpRequest, usize), ProxyError>)
    ensures
        match r {
            Ok((request, consumed)) => parsed_request(input@) == Ok::<
                (HttpRequestView, int),
                ProxyError,
            >((request@, consumed as int)),
            Err(e) => parsed_request(input@) == Err::<(HttpRequestView, int), ProxyError>(e),
        },
{
    let start = line_end(input, 0);
    assert(input@.skip(0) == input@);
    assert(input@.subrange(0, start as int) == input@.take(start as int));
    let (method, target) = match utf8_text(slice_subrange(input, 0, start)) {
        None => { return Err(ProxyError::Io); },
        Some(text) => {
            let chars = chars_of(text);
            match parse_request_line(chars.as_slice()) {
                None => { return Err(ProxyError::BadRequest); },
                Some(pair) => pair,
            }
        },
    };
    let mut headers: Vec<(String, String)> = Vec::new();
    let mut pos: usize = start;
    assert(headers_view(headers@) == Seq::<(Seq<char>, Seq<char>)>::empty());
    loop
        invariant_except_break
            start <= pos <= input.len(),
            headers_from(input@.skip(start as int), Seq::empty()) == match headers_from(
                input@.skip(pos as int),
                headers_view(headers@),
            ) {
                Ok((all, m)) => Ok::<(Seq<(Seq<char>, Seq<char>)>, int), ProxyError>(
                    (all, pos - start + m),
                ),
                Err(e) => Err(e),
            },
        invariant
            start == line_length(input@),
            valid_utf8(input@.take(start as int)),
            request_line(decode_utf8(input@.take(start as int))) == Some((method@, target@)),
        ensures
            start <= pos <= input.len(),
            headers_from(input@.skip(start as int), Seq::empty()) == Ok::<
                (Seq<(Seq<char>, Seq<char>)>, int),
                ProxyError,
            >((headers_view(headers@), pos - start)),
        decreases input.len() - pos,
    {
        let end = line_end(input, pos);
        let ghost rest = input@.skip(pos as int);
        assert(rest.take(end - pos) == input@.subrange(pos as int, end as int));
        assert(rest.skip(end - pos) == input@.skip(end as int));
        match utf8_text(slice_subrange(input, pos, end)) {
            None => { return Err(ProxyError::Io); },
            Some(text) => {
                let chars = chars_of(text);
                if end == pos || is_blank_line(chars.as_slice()) {
                    pos = end;
                    break ;
                }
                apply_header_line(&mut headers, chars.as_slice());
                pos = end;
            },
        }
    }
    let len = body_to_read(method.as_str(), &headers);
    if input.len() - pos < len {
        return Err(ProxyError::Io);
    }
    let mut body: Vec<u8> = Vec::with_capacity(len);
    let mut i: usize = 0;
    while i < len
        invariant
            i <= len,
            pos + len <= input.len(),
            body@ == input@.subrange(pos as int, pos + i),
        decreases len - i,
    {
        body.push(input[pos + i]);
        i += 1;
    }
    Ok((HttpRequest { method, target, headers, body }, pos + len))
}

/// What the proxy itself says to a client.
#[derive(Clone, Copy, Debug, PartialEq, Eq, Structural)]
pub enum ClientReply {
    /// `200 Connection Established`: the tunnel is open.
    ConnectionEstablished,
    /// `400 Bad Request`: the CONNECT target cannot be read.
    BadRequest,
    /// `405 Method Not Allowed`: CONNECT handling was asked of another method.
    MethodNotAllowed,
    /// `500 Internal Server Error`: the request could not be served.
    ServerError,
}

impl ClientReply {
    /// The status line, with the blank line that ends the reply.
    pub fn text(self) -> (line: &'static str)
        ensures
            line@ == match self {
                ClientReply::ConnectionEstablished => HTTP_CONNECTION_ESTABLISHED@,
                ClientReply::BadRequest => HTTP_BAD_REQUEST@,
                ClientReply::MethodNotAllowed => HTTP_METHOD_NOT_ALLOWED@,
                ClientReply::ServerError => HTTP_SERVER_ERROR@,
            },
    {
        match self {
            ClientReply::ConnectionEstablished => HTTP_CONNECTION_ESTABLISHED,
            ClientReply::BadRequest => HTTP_BAD_REQUEST,
            ClientReply::MethodNotAllowed => HTTP_METHOD_NOT_ALLOWED,
            ClientReply::ServerError => HTTP_SERVER_ERROR,
        }
    }

    /// The status code.
    pub fn status(self) -> (code: u16)
        ensures
            code == match self {
                ClientReply::ConnectionEstablished => 200u16,
                ClientReply::BadRequest => 400u16,
                ClientReply::MethodNotAllowed => 405u16,
                ClientReply::ServerError => 500u16,
            },
    {
        match self {
            ClientReply::ConnectionEstablished => 200,
            ClientReply::BadRequest => 400,
            ClientReply::MethodNotAllowed => 405,
            ClientReply::ServerError => 500,
        }
    }
}

/// Host and port of a CONNECT target `host:port`, split at the last colon.
/// The port is a decimal number up to 65535.
pub open spec fn connect_target(target: Seq<char>) -> Option<(Seq<char>, u16)> {
    let colon = rfind_char(target, ':');
    if colon < 0 {
        None
    } else {
        match bounded_decimal(target.skip(colon + 1), 65535) {
            Some(port) => Some((target.take(colon), port as u16)),
            None => None,
        }
    }
}

/// The method that asks for a tunnel.
pub open spec fn is_connect(method: Seq<char>) -> bool {
    method == "CONNECT"@
}

/// Reads the target of a CONNECT request. A request with another method is
/// answered with 405, a target without a numeric port with 400.
pub fn handle_connect(request: &HttpRequest) -> (r: Result<(String, u16), ClientReply>)
    ensures
        match r {
            Ok((host, port)) => is_connect(request@.method) && connect_target(request@.target)
                == Some((host@, port)),
            Err(reply) => if is_connect(request@.method) {
                connect_target(request@.target).is_none() && reply == ClientReply::BadRequest
            } else {
                reply == ClientReply::MethodNotAllowed
            },
        },
{
    if !str_eq(request.method.as_str(), "CONNECT") {
        return Err(ClientReply::MethodNotAllowed);
    }
    let target = chars_of(request.target.as_str());
    match last_index_of(target.as_slice(), ':') {
        None => Err(ClientReply::BadRequest),
        Some(colon) => {
            let digits = slice_subrange(target.as_slice(), colon + 1, target.len());
            assert(digits@ == target@.skip(colon + 1));
            match parse_bounded(digits, 65535) {
                None => Err(ClientReply::BadRequest),
                Some(port) => {
                    assert(target@.subrange(0, colon as int) == target@.take(colon as int));
                    Ok((string_of_range(target.as_slice(), 0, colon), port as u16))
                },
            }
        },
    }
}

/// What `base64`'s standard engine, with padding, makes of `bytes`.
pub uninterp spec fn base64_standard(bytes: Seq<u8>) -> Seq<char>;

/// `Engine::encode` of `base64::engine::general_purpose::STANDARD`. The text
/// depends on the bytes alone. The call computes the encoded length with
/// overflow checks that no slice is long enough to trip.
#[verifier::external_body]
fn base64_encode(bytes: &[u8]) -> (text: String)
    ensures
        text@ == base64_standard(bytes@),
{
    base64::engine::general_purpose::STANDARD.encode(bytes)
}

pub open spec fn crlf() -> Seq<char> {
    seq!['\r', '\n']
}

/// `name: value` and the line ending.
pub open spec fn header_line(name: Seq<char>, value: Seq<char>) -> Seq<char> {
    name + seq![':', ' '] + value + crlf()
}

/// `host:port`.
pub open spec fn authority(host: Seq<char>, port: u16) -> Seq<char> {
    host + seq![':'] + decimal_repr(port as nat)
}

/// `METHOD target HTTP/1.1` and the line ending.
pub open spec fn request_line_text(method: Seq<char>, target: Seq<char>) -> Seq<char> {
    method + seq![' '] + target + " HTTP/1.1"@ + crlf()
}

/// The `Proxy-Authorization` header for a user name and a password, or
/// nothing where there are none.
pub open spec fn proxy_authorization(auth: Option<(Seq<char>, Seq<char>)>) -> Seq<char> {
    match auth {
        Some((user, password)) => header_line(
            "Proxy-Authorization"@,
            "Basic "@ + base64_standard(encode_utf8(user + seq![':'] + password)),
        ),
        None => Seq::empty(),
    }
}

/// Which of a client's headers are passed on.
#[derive(Clone, Copy, Debug, PartialEq, Eq, Structural)]
pub enum Passing {
    /// All of them.
    Everything,
    /// All but `proxy-connection`.
    ToProxy,
    /// All but `host` and those whose name begins with `proxy-`.
    ToOrigin,
}

pub open spec fn passes(passing: Passing, name: Seq<char>) -> bool {
    match passing {
        Passing::Everything => true,
        Passing::ToProxy => name != "proxy-connection"@,
        Passing::ToOrigin => name != "host"@ && !"proxy-"@.is_prefix_of(name),
    }
}

/// The header lines for those of `headers` that are passed on, in order.
pub open spec fn header_lines(headers: Seq<(Seq<char>, Seq<char>)>, passing: Passing) -> Seq<char>
    decreases headers.len(),
{
    if headers.len() == 0 {
        Seq::empty()
    } else {
        let last = headers.last();
        header_lines(headers.drop_last(), passing) + if passes(passing, last.0) {
            header_line(last.0, last.1)
        } else {
            Seq::empty()
        }
    }
}

/// A `Host` header for the target, where the client sent none.
pub open spec fn host_if_missing(
    headers: Seq<(Seq<char>, Seq<char>)>,
    host: Seq<char>,
    port: u16,
) -> Seq<char> {
    if header_value(headers, "host"@).is_some() {
        Seq::empty()
    } else {
        header_line("Host"@, authority(host, port))
    }
}

/// A `Content-Length` header for a body that is not empty.
pub open spec fn length_of_body(body: Seq<u8>) -> Seq<char> {
    if body.len() > 0 {
        header_line("Content-Length"@, decimal_repr(body.len()))
    } else {
        Seq::empty()
    }
}

/// The head of the CONNECT request that asks an HTTP proxy for a tunnel.
pub open spec fn connect_request_text(
    host: Seq<char>,
    port: u16,
    auth: Option<(Seq<char>, Seq<char>)>,
) -> Seq<char> {
    request_line_text("CONNECT"@, authority(host, port)) + header_line(
        "Host"@,
        authority(host, port),
    ) + proxy_authorization(auth) + crlf()
}

/// A request head written out as it was read: request line, every header,
/// blank line.
pub open spec fn plain_head_text(request: HttpRequestView) -> Seq<char> {
    request_line_text(request.method, request.target) + header_lines(
        request.headers,
        Passing::Everything,
    ) + crlf()
}

/// The head of a request that is handed to an HTTP proxy: the target as the
/// client wrote it, the client's headers without `proxy-connection`, the
/// credentials if any, a `Host` header if the client sent none, and a
/// `Content-Length` header if there is a body.
pub open spec fn forward_head_text(
    request: HttpRequestView,
    host: Seq<char>,
    port: u16,
    auth: Option<(Seq<char>, Seq<char>)>,
) -> Seq<char> {
    request_line_text(request.method, request.target) + header_lines(
        request.headers,
        Passing::ToProxy,
    ) + proxy_authorization(auth) + host_if_missing(request.headers, host, port) + length_of_body(
        request.body,
    ) + crlf()
}

/// The path that a request target asks for: what follows the authority of
/// an absolute `http://` or `https://` target, `/` where nothing follows;
/// any other target as it is, with a leading `/` if it has none.
pub open spec fn origin_form(target: Seq<char>) -> Seq<char> {
    let after = if "http://"@.is_prefix_of(target) {
        Some(target.skip("http://"@.len() as int))
    } else if "https://"@.is_prefix_of(target) {
        Some(target.skip("https://"@.len() as int))
    } else {
        None
    };
    match after {
        Some(rest) => {
            let slash = find_char(rest, '/');
            if slash < rest.len() {
                rest.skip(slash)
            } else {
                seq!['/']
            }
        },
        None => if target.len() > 0 && target[0] == '/' {
            target
        } else {
            seq!['/'] + target
        },
    }
}

/// The path always begins with a slash.
pub proof fn lemma_origin_form_begins_with_slash(target: Seq<char>)
    ensures
        origin_form(target).len() > 0,
        origin_form(target)[0] == '/',
{
    crate::text::lemma_find_char_bounds(target.skip("http://"@.len() as int), '/');
    crate::text::lemma_find_char_bounds(target.skip("https://"@.len() as int), '/');
}

/// The `Host` header of a request to the origin: the client's own where
/// it sent one, else the target.
pub open spec fn origin_host_line(
    headers: Seq<(Seq<char>, Seq<char>)>,
    host: Seq<char>,
    port: u16,
) -> Seq<char> {
    match header_value(headers, "host"@) {
        Some(value) => header_line("Host"@, value),
        None => header_line("Host"@, authority(host, port)),
    }
}

/// The head of a request that goes to the origin itself: the path in place
/// of an absolute target; `Host` first; the client's other headers, without
/// those meant for a proxy; `Content-Length` for a body that the client
/// gave no length for; `Connection: close` unless the client said what is to
/// become of the connection.
pub open spec fn origin_head_text(request: HttpRequestView, host: Seq<char>, port: u16) -> Seq<
    char,
> {
    request_line_text(request.method, origin_form(request.target)) + origin_host_line(
        request.headers,
        host,
        port,
    ) + header_lines(request.headers, Passing::ToOrigin) + (if header_value(
        request.headers,
        content_length_name(),
    ).is_some() {
        Seq::empty()
    } else {
        length_of_body(request.body)
    }) + (if header_value(request.headers, "connection"@).is_some() {
        Seq::empty()
    } else {
        header_line("Connection"@, "close"@)
    }) + crlf()
}

fn push_crlf(out: &mut Vec<char>)
    ensures
        final(out)@ == old(out)@ + crlf(),
{
    out.push('\r');
    out.push('\n');
    assert(out@ == old(out)@ + crlf());
}

fn push_header_line(out: &mut Vec<char>, name: &str, value: &str)
    ensures
        final(out)@ == old(out)@ + header_line(name@, value@),
{
    push_str(out, name);
    out.push(':');
    out.push(' ');
    push_str(out, value);
    push_crlf(out);
    assert(out@ == old(out)@ + header_line(name@, value@));
}

fn authority_of(host: &str, port: u16) -> (text: String)
    ensures
        text@ == authority(host@, port),
{
    let mut out: Vec<char> = Vec::new();
    push_str(&mut out, host);
    out.push(':');
    push_decimal(&mut out, port as u64);
    assert(out@ == authority(host@, port));
    crate::text::string_of(out.as_slice())
}

fn push_request_line(out: &mut Vec<char>, method: &str, target: &[char])
    ensures
        final(out)@ == old(out)@ + request_line_text(method@, target@),
{
    push_str(out, method);
    out.push(' ');
    push_chars(out, target);
    push_str(out, " HTTP/1.1");
    push_crlf(out);
    assert(out@ == old(out)@ + request_line_text(method@, target@));
}

fn push_proxy_authorization(out: &mut Vec<char>, auth: Option<(&str, &str)>)
    ensures
        final(out)@ == old(out)@ + proxy_authorization(
            match auth {
                Some((user, password)) => Some((user@, password@)),
                None => None,
            },
        ),
{
    match auth {
        Some((user, password)) => {
            let mut pair: Vec<char> = Vec::new();
            push_str(&mut pair, user);
            pair.push(':');
            push_str(&mut pair, password);
            assert(pair@ == user@ + seq![':'] + password@);
            let bytes = encode_text(pair.as_slice());
            let encoded = base64_encode(bytes.as_slice());
            let mut value: Vec<char> = Vec::new();
            push_str(&mut value, "Basic ");
            push_str(&mut value, encoded.as_str());
            let value = crate::text::string_of(value.as_slice());
            push_header_line(out, "Proxy-Authorization", value.as_str());
        },
        None => {
            assert(out@ + Seq::<char>::empty() == out@);
        },
    }
}

fn name_passes(passing: Passing, name: &str) -> (r: bool)
    ensures
        r == passes(passing, name@),
{
    match passing {
        Passing::Everything => true,
        Passing::ToProxy => !str_eq(name, "proxy-connection"),
        Passing::ToOrigin => {
            let n = chars_of(name);
            let prefix = chars_of("proxy-");
            !str_eq(name, "host") && !starts_with(n.as_slice(), prefix.as_slice())
        },
    }
}

fn push_header_lines(out: &mut Vec<char>, headers: &Vec<(String, String)>, passing: Passing)
    ensures
        final(out)@ == old(out)@ + header_lines(headers_view(headers@), passing),
{
    let ghost all = headers_view(headers@);
    let mut i: usize = 0;
    assert(all.take(0) == Seq::<(Seq<char>, Seq<char>)>::empty());
    assert(out@ + Seq::<char>::empty() == out@);
    while i < headers.len()
        invariant
            i <= headers.len(),
            all == headers_view(headers@),
            out@ == old(out)@ + header_lines(all.take(i as int), passing),
        decreases headers.len() - i,
    {
        let ghost before = out@;
        let ghost done = header_lines(all.take(i as int), passing);
        assert(all.take(i + 1).drop_last() == all.take(i as int));
        assert(all.take(i + 1).last() == all[i as int]);
        if name_passes(passing, headers[i].0.as_str()) {
            push_header_line(out, headers[i].0.as_str(), headers[i].1.as_str());
            assert(out@ == old(out)@ + (done + header_line(all[i as int].0, all[i as int].1)));
        } else {
            assert(out@ == old(out)@ + (done + Seq::<char>::empty()));
        }
        i += 1;
    }
    assert(all.take(headers.len() as int) == all);
}

fn push_length_of_body(out: &mut Vec<char>, body: &Vec<u8>)
    ensures
        final(out)@ == old(out)@ + length_of_body(body@),
{
    if body.len() > 0 {
        let mut digits: Vec<char> = Vec::new();
        push_decimal(&mut digits, body.len() as u64);
        assert(digits@ == decimal_repr(body@.len()));
        let digits = crate::text::string_of(digits.as_slice());
        push_header_line(out, "Content-Length", digits.as_str());
    } else {
        assert(out@ + Seq::<char>::empty() == out@);
    }
}

/// The bytes of `head`, followed by `body`.
fn with_body(head: &Vec<char>, body: &Vec<u8>) -> (bytes: Vec<u8>)
    ensures
        bytes@ == encode_utf8(head@) + body@,
{
    let mut bytes = encode_text(head.as_slice());
    let ghost encoded = bytes@;
    let mut i: usize = 0;
    assert(body@.take(0) == Seq::<u8>::empty());
    assert(bytes@ + Seq::<u8>::empty() == bytes@);
    while i < body.len()
        invariant
            i <= body.len(),
            bytes@ == encoded + body@.take(i as int),
        decreases body.len() - i,
    {
        bytes.push(body[i]);
        assert(body@.take(i + 1) == body@.take(i as int).push(body@[i as int]));
        i += 1;
    }
    assert(body@.take(body.len() as int) == body@);
    bytes
}

/// User name and password as characters.
pub open spec fn auth_view(auth: Option<(&str, &str)>) -> Option<(Seq<char>, Seq<char>)> {
    match auth {
        Some((user, password)) => Some((user@, password@)),
        None => None,
    }
}

/// The CONNECT request that asks an HTTP proxy for a tunnel to the target.
pub fn connect_request(target_host: &str, target_port: u16, auth: Option<(&str, &str)>) -> (bytes:
    Vec<u8>)
    ensures
        bytes@ == encode_utf8(connect_request_text(target_host@, target_port, auth_view(auth))),
{
    let target = authority_of(target_host, target_port);
    let target_chars = chars_of(target.as_str());
    let mut out: Vec<char> = Vec::new();
    push_request_line(&mut out, "CONNECT", target_chars.as_slice());
    push_header_line(&mut out, "Host", target.as_str());
    push_proxy_authorization(&mut out, auth);
    push_crlf(&mut out);
    assert(out@ == connect_request_text(target_host@, target_port, auth_view(auth)));
    encode_text(out.as_slice())
}

/// The request as it was read, written out again for an upstream that is
/// to see it unchanged: head, then body.
pub fn plain_request(request: &HttpRequest) -> (bytes: Vec<u8>)
    ensures
        bytes@ == encode_utf8(plain_head_text(request@)) + request@.body,
{
    let target = chars_of(request.target.as_str());
    let mut out: Vec<char> = Vec::new();
    push_request_line(&mut out, request.method.as_str(), target.as_slice());
    push_header_lines(&mut out, &request.headers, Passing::Everything);
    push_crlf(&mut out);
    assert(out@ == plain_head_text(request@));
    with_body(&out, &request.body)
}

/// The request as an HTTP proxy is to get it: head, then body.
pub fn forward_http_request(
    request: &HttpRequest,
    target_host: &str,
    target_port: u16,
    auth: Option<(&str, &str)>,
) -> (bytes: Vec<u8>)
    ensures
        bytes@ == encode_utf8(
            forward_head_text(request@, target_host@, target_port, auth_view(auth)),
        ) + request@.body,
{
    let target = chars_of(request.target.as_str());
    let mut out: Vec<char> = Vec::new();
    push_request_line(&mut out, request.method.as_str(), target.as_slice());
    push_header_lines(&mut out, &request.headers, Passing::ToProxy);
    push_proxy_authorization(&mut out, auth);
    if !request.has_header("host") {
        let to = authority_of(target_host, target_port);
        push_header_line(&mut out, "Host", to.as_str());
    } else {
        assert(out@ + Seq::<char>::empty() == out@);
    }
    push_length_of_body(&mut out, &request.body);
    push_crlf(&mut out);
    assert(out@ == forward_head_text(request@, target_host@, target_port, auth_view(auth)));
    with_body(&out, &request.body)
}

/// The path that `target` asks for.
pub fn origin_form_of(target: &str) -> (path: Vec<char>)
    ensures
        path@ == origin_form(target@),
{
    let t = chars_of(target);
    let http = chars_of("http://");
    let https = chars_of("https://");
    let from: Option<usize> = if starts_with(t.as_slice(), http.as_slice()) {
        Some(http.len())
    } else if starts_with(t.as_slice(), https.as_slice()) {
        Some(https.len())
    } else {
        None
    };
    let mut path: Vec<char> = Vec::new();
    match from {
        Some(at) => {
            let rest = slice_subrange(t.as_slice(), at, t.len());
            assert(rest@ == t@.skip(at as int));
            let slash = index_of(rest, '/');
            if slash < rest.len() {
                push_chars(&mut path, slice_subrange(rest, slash, rest.len()));
                assert(rest@.subrange(slash as int, rest.len() as int) == rest@.skip(slash as int));
            } else {
                path.push('/');
            }
        },
        None => {
            if t.len() > 0 && t[0] == '/' {
                push_chars(&mut path, t.as_slice());
            } else {
                path.push('/');
                push_chars(&mut path, t.as_slice());
            }
        },
    }
    path
}

/// The request as the origin itself is to get it: head, then body.
pub fn send_http_request(request: &HttpRequest, target_host: &str, port: u16) -> (bytes: Vec<u8>)
    ensures
        bytes@ == encode_utf8(origin_head_text(request@, target_host@, port)) + request@.body,
{
    let path = origin_form_of(request.target.as_str());
    let mut out: Vec<char> = Vec::new();
    push_request_line(&mut out, request.method.as_str(), path.as_slice());
    match request.header("host") {
        Some(value) => push_header_line(&mut out, "Host", value.as_str()),
        None => {
            let to = authority_of(target_host, port);
            push_header_line(&mut out, "Host", to.as_str());
        },
    }
    push_header_lines(&mut out, &request.headers, Passing::ToOrigin);
    if !request.has_header("content-length") {
        push_length_of_body(&mut out, &request.body);
    } else {
        assert(out@ + Seq::<char>::empty() == out@);
    }
    if !request.has_header("connection") {
        push_header_line(&mut out, "Connection", "close");
    } else {
        assert(out@ + Seq::<char>::empty() == out@);
    }
    push_crlf(&mut out);
    assert(out@ == origin_head_text(request@, target_host@, port));
    with_body(&out, &request.body)
}

/// Whether a proxy's status line grants the tunnel: `HTTP/1.1 200` or
/// `HTTP/1.0 200` at its start.
pub open spec fn tunnel_granted(status_line: Seq<char>) -> bool {
    "HTTP/1.1 200"@.is_prefix_of(status_line) || "HTTP/1.0 200"@.is_prefix_of(status_line)
}

/// The status code of a status line: its second token, read as a decimal
/// number up to 65535; 0 where there is no such token.
pub open spec fn status_code(status_line: Seq<char>) -> u16 {
    let a = skip_ws(status_line);
    let version = take_token(a);
    let b = skip_ws(a.skip(version.len() as int));
    match bounded_decimal(take_token(b), 65535) {
        Some(code) => code as u16,
        None => 0,
    }
}

/// Where a CONNECT handshake with an HTTP proxy stands.
#[derive(Clone, Copy, Debug, PartialEq, Eq, Structural)]
pub enum TunnelState {
    /// Waiting for the TCP connection to the proxy.
    Dial,
    /// The request is out; waiting for the status line.
    Status,
    /// The tunnel is granted; waiting for the end of the proxy's headers.
    Headers,
    /// The tunnel is open.
    Ready,
    /// The handshake has failed.
    Failed(ProxyError),
}

pub open spec fn tunnel_failed(e: ProxyError) -> (TunnelState, ActionView) {
    (TunnelState::Failed(e), ActionView::Fail(e))
}

/// The handshake: what follows `state` on `event`, and what to do then.
/// `request` is the CONNECT request. A status other than 200 ends the
/// handshake with `ProxyConnectRejected` and the code that the proxy gave.
pub open spec fn tunnel_transition(state: TunnelState, event: EventView, request: Seq<u8>) -> (
    TunnelState,
    ActionView,
) {
    match state {
        TunnelState::Ready => (TunnelState::Ready, ActionView::Done),
        TunnelState::Failed(e) => tunnel_failed(e),
        _ => match event {
            EventView::TimedOut => tunnel_failed(ProxyError::Timeout),
            EventView::IoFailed => tunnel_failed(ProxyError::Io),
            EventView::Cancelled => tunnel_failed(ProxyError::Cancelled),
            EventView::Received(_) => tunnel_failed(ProxyError::ProxyProtocol),
            EventView::Connected => if state == TunnelState::Dial {
                (TunnelState::Status, ActionView::Exchange { send: request, wait: Wait::Line })
            } else {
                tunnel_failed(ProxyError::ProxyProtocol)
            },
            EventView::Line(line) => match state {
                TunnelState::Status => if tunnel_granted(line) {
                    (TunnelState::Headers, read_line())
                } else {
                    tunnel_failed(ProxyError::ProxyConnectRejected(status_code(line)))
                },
                TunnelState::Headers => if is_blank(line) {
                    (TunnelState::Ready, ActionView::Done)
                } else {
                    (TunnelState::Headers, read_line())
                },
                _ => tunnel_failed(ProxyError::ProxyProtocol),
            },
        },
    }
}

fn status_code_of(line: &[char]) -> (code: u16)
    ensures
        code == status_code(line@),
{
    let v0 = skip_ws_from(line, 0);
    assert(line@.skip(0) == line@);
    let v1 = token_end(line, v0);
    let ghost a = skip_ws(line@);
    assert(a.skip((v1 - v0) as int) == line@.skip(v1 as int));
    let c0 = skip_ws_from(line, v1);
    let c1 = token_end(line, c0);
    match parse_bounded(slice_subrange(line, c0, c1), 65535) {
        Some(code) => code as u16,
        None => 0,
    }
}

fn tunnel_fail(e: ProxyError) -> (r: (TunnelState, Action))
    ensures
        (r.0, r.1@) == tunnel_failed(e),
{
    (TunnelState::Failed(e), Action::Fail(e))
}

/// One step of the handshake on plain values.
pub fn forward_to_proxy(state: TunnelState, event: &Event, request: &[u8]) -> (r: (TunnelState, Action))
    ensures
        (r.0, r.1@) == tunnel_transition(state, event@, request@),
{
    match state {
        TunnelState::Ready => { return (TunnelState::Ready, Action::Done); },
        TunnelState::Failed(e) => { return tunnel_fail(e); },
        _ => {},
    }
    match event {
        Event::TimedOut => tunnel_fail(ProxyError::Timeout),
        Event::IoFailed => tunnel_fail(ProxyError::Io),
        Event::Cancelled => tunnel_fail(ProxyError::Cancelled),
        Event::Received(_) => tunnel_fail(ProxyError::ProxyProtocol),
        Event::Connected => match state {
            TunnelState::Dial => (
                TunnelState::Status,
                Action::Exchange { send: copy_bytes(request), wait: Wait::Line },
            ),
            _ => tunnel_fail(ProxyError::ProxyProtocol),
        },
        Event::Line(line) => {
            let chars = chars_of(line.as_str());
            match state {
                TunnelState::Status => {
                    let new = chars_of("HTTP/1.1 200");
                    let old = chars_of("HTTP/1.0 200");
                    if starts_with(chars.as_slice(), new.as_slice()) || starts_with(
                        chars.as_slice(),
                        old.as_slice(),
                    ) {
                        (
                            TunnelState::Headers,
                            Action::Exchange { send: Vec::new(), wait: Wait::Line },
                        )
                    } else {
                        tunnel_fail(
                            ProxyError::ProxyConnectRejected(status_code_of(chars.as_slice())),
                        )
                    }
                },
                TunnelState::Headers => {
                    if is_blank_line(chars.as_slice()) {
                        (TunnelState::Ready, Action::Done)
                    } else {
                        (
                            TunnelState::Headers,
                            Action::Exchange { send: Vec::new(), wait: Wait::Line },
                        )
                    }
                },
                _ => tunnel_fail(ProxyError::ProxyProtocol),
            }
        },
    }
}

/// A CONNECT handshake with an HTTP proxy in progress.
pub struct ConnectTunnel {
    state: TunnelState,
    request: Vec<u8>,
}

impl ConnectTunnel {
    pub closed spec fn state(&self) -> TunnelState {
        self.state
    }

    /// The CONNECT request that this handshake sends.
    pub closed spec fn request(&self) -> Seq<u8> {
        self.request@
    }

    /// Prepares the handshake for a tunnel to the target; the connection to
    /// the proxy is still to be opened.
    pub fn start(target_host: &str, target_port: u16, auth: Option<(&str, &str)>) -> (tunnel:
        ConnectTunnel)
        ensures
            tunnel.state() == TunnelState::Dial,
            tunnel.request() == encode_utf8(
                connect_request_text(target_host@, target_port, auth_view(auth)),
            ),
    {
        ConnectTunnel {
            state: TunnelState::Dial,
            request: connect_request(target_host, target_port, auth),
        }
    }

    pub fn current(&self) -> (state: TunnelState)
        ensures
            state == self.state(),
    {
        self.state
    }

    /// Takes note of `event` and says what to do next.
    pub fn advance(&mut self, event: &Event) -> (action: Action)
        ensures
            (final(self).state(), action@) == tunnel_transition(
                old(self).state(),
                event@,
                old(self).request(),
            ),
            final(self).request() == old(self).request(),
    {
        let (next, action) = forward_to_proxy(self.state, event, self.request.as_slice());
        self.state = next;
        action
    }
}

/// The tunnel opens in one way only: a blank line ends the headers of a
/// granted request.
pub proof fn lemma_tunnel_opens_after_headers(
    state: TunnelState,
    event: EventView,
    request: Seq<u8>,
)
    requires
        state != TunnelState::Ready,
        tunnel_transition(state, event, request).0 == TunnelState::Ready,
    ensures
        state == TunnelState::Headers,
        event matches EventView::Line(line) && is_blank(line),
{
}

/// The proxy's headers are read only after it has granted the tunnel.
pub proof fn lemma_headers_follow_grant(state: TunnelState, event: EventView, request: Seq<u8>)
    requires
        state != TunnelState::Headers,
        tunnel_transition(state, event, request).0 == TunnelState::Headers,
    ensures
        state == TunnelState::Status,
        event matches EventView::Line(line) && tunnel_granted(line),
{
}

/// The state after a run of events.
pub open spec fn tunnel_after(state: TunnelState, events: Seq<EventView>, request: Seq<u8>) -> TunnelState
    decreases events.len(),
{
    if events.len() == 0 {
        state
    } else {
        tunnel_after(tunnel_transition(state, events[0], request).0, events.drop_first(), request)
    }
}

/// `events[from..upto]` are header lines of the proxy, and `events[upto]` is
/// the blank line that ends them.
pub open spec fn headers_end_at(events: Seq<EventView>, from: int, upto: int) -> bool {
    &&& from <= upto < events.len()
    &&& events[upto] matches EventView::Line(line) && is_blank(line)
    &&& forall|j: int|
        from <= j < upto ==> (#[trigger] events[j] matches EventView::Line(line) && !is_blank(line))
}

proof fn lemma_tunnel_failure_stays(e: ProxyError, events: Seq<EventView>, request: Seq<u8>)
    ensures
        tunnel_after(TunnelState::Failed(e), events, request) == TunnelState::Failed(e),
    decreases events.len(),
{
    if events.len() > 0 {
        lemma_tunnel_failure_stays(e, events.drop_first(), request);
    }
}

proof fn lemma_tunnel_after_one(state: TunnelState, events: Seq<EventView>, request: Seq<u8>)
    requires
        tunnel_after(state, events, request) == TunnelState::Ready,
        state != TunnelState::Ready,
    ensures
        events.len() > 0,
        !(tunnel_transition(state, events[0], request).0 is Failed),
        tunnel_after(
            tunnel_transition(state, events[0], request).0,
            events.drop_first(),
            request,
        ) == TunnelState::Ready,
{
    if events.len() > 0 {
        let next = tunnel_transition(state, events[0], request).0;
        if let TunnelState::Failed(e) = next {
            lemma_tunnel_failure_stays(e, events.drop_first(), request);
        }
    }
}

proof fn lemma_headers_were_drained(events: Seq<EventView>, request: Seq<u8>) -> (upto: int)
    requires
        tunnel_after(TunnelState::Headers, events, request) == TunnelState::Ready,
    ensures
        headers_end_at(events, 0, upto),
    decreases events.len(),
{
    lemma_tunnel_after_one(TunnelState::Headers, events, request);
    let next = tunnel_transition(TunnelState::Headers, events[0], request).0;
    if next == TunnelState::Ready {
        0
    } else {
        let rest = events.drop_first();
        let k = lemma_headers_were_drained(rest, request);
        assert(rest[k] == events[k + 1]);
        assert forall|j: int| 0 <= j < k + 1 implies (#[trigger] events[j] matches EventView::Line(
            line,
        ) && !is_blank(line)) by {
            if j > 0 {
                assert(events[j] == rest[j - 1]);
            }
        }
        k + 1
    }
}

/// A handshake that ends with an open tunnel went the whole way: the
/// connection came up, the proxy's status line granted the tunnel, and its
/// headers were read up to the blank line. Nothing else opens a tunnel.
pub proof fn lemma_open_tunnel_was_granted(events: Seq<EventView>, request: Seq<u8>)
    requires
        tunnel_after(TunnelState::Dial, events, request) == TunnelState::Ready,
    ensures
        events.len() >= 3,
        events[0] == EventView::Connected,
        events[1] matches EventView::Line(status) && tunnel_granted(status),
        exists|upto: int| headers_end_at(events, 2, upto),
{
    lemma_tunnel_after_one(TunnelState::Dial, events, request);
    let rest1 = events.drop_first();
    lemma_tunnel_after_one(TunnelState::Status, rest1, request);
    assert(rest1[0] == events[1]);
    let rest2 = rest1.drop_first();
    let k = lemma_headers_were_drained(rest2, request);
    assert(rest2[k] == events[k + 2]);
    assert forall|j: int| 2 <= j < k + 2 implies (#[trigger] events[j] matches EventView::Line(
        line,
    ) && !is_blank(line)) by {
        assert(events[j] == rest2[j - 2]);
    }
    assert(headers_end_at(events, 2, k + 2));
}

} // verus!
