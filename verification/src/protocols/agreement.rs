//! The two ways of reading a request head agree: the parser that is fed
//! line by line ends where `parse_request` ends on the same bytes.

use crate::error::ProxyError;
use crate::protocols::http::{
    body_length, headers_from, lemma_headers_from_bounds, is_blank, lemma_line_length, line_length, parsed_request,
    parser_transition, request_line, with_header_line, HttpRequestView, ParseState, ParserView,
};
use crate::protocols::roundtrip::fresh_parser;
use crate::protocols::EventView;
use crate::text::{skip_ws, take_token};
use vstd::prelude::*;
use vstd::utf8::{decode_utf8, valid_utf8};

verus! {

/// Whether the parser waits for a line.
pub open spec fn wants_line(state: ParseState) -> bool {
    state == ParseState::RequestLine || state == ParseState::Headers
}

/// What a reader reports when the parser waits for a line: the first line
/// of `input` as text, empty at the end of `input`, or a failure where the
/// line is not UTF-8.
pub open spec fn line_event(input: Seq<u8>) -> EventView {
    let raw = input.take(line_length(input));
    if valid_utf8(raw) {
        EventView::Line(decode_utf8(raw))
    } else {
        EventView::IoFailed
    }
}

/// What a reader reports when the parser waits for `n` body bytes: the
/// bytes, or a failure where `input` ends before them.
pub open spec fn body_event(input: Seq<u8>, n: nat) -> EventView {
    if input.len() >= n {
        EventView::Received(input.take(n as int))
    } else {
        EventView::IoFailed
    }
}

/// The parser after a reader has fed it from `input` for as long as it
/// asked, and the number of bytes that this took.
pub open spec fn fed(parser: ParserView, input: Seq<u8>) -> (ParserView, int)
    decreases
            input.len(),
            (if wants_line(parser.state) {
                1nat
            } else {
                0nat
            }),
{
    if wants_line(parser.state) {
        let n = line_length(input);
        let next = parser_transition(parser, line_event(input)).0;
        if n > 0 {
            proof {
                lemma_line_length(input);
            }
            let (end, m) = fed(next, input.skip(n));
            (end, n + m)
        } else if !wants_line(next.state) {
            fed(next, input)
        } else {
            (next, 0)
        }
    } else if parser.state == ParseState::Body {
        let n = body_length(parser.request.method, parser.request.headers);
        let next = parser_transition(parser, body_event(input, n)).0;
        if input.len() >= n {
            (next, n as int)
        } else {
            (next, 0)
        }
    } else {
        (parser, 0)
    }
}

/// What the two readers come to, side by side.
pub open spec fn agree(end: (ParserView, int), parsed: Result<(HttpRequestView, int), ProxyError>) -> bool {
    match parsed {
        Ok((request, taken)) => end.0 == (ParserView { state: ParseState::Done, request })
            && end.1 == taken,
        Err(e) => end.0.state == ParseState::Failed(e),
    }
}

/// What `parse_request` makes of the rest of a head once method and
/// target are known and `headers` have been read.
spec fn rest_parsed(
    method: Seq<char>,
    target: Seq<char>,
    headers: Seq<(Seq<char>, Seq<char>)>,
    input: Seq<u8>,
) -> Result<(HttpRequestView, int), ProxyError> {
    match headers_from(input, headers) {
        Err(e) => Err(e),
        Ok((all, m)) => {
            let len = body_length(method, all);
            if input.len() - m < len {
                Err(ProxyError::Io)
            } else {
                Ok((HttpRequestView { method, target, headers: all, body: input.subrange(m, m + len) }, m + len))
            }
        },
    }
}

spec fn in_headers(method: Seq<char>, target: Seq<char>, headers: Seq<(Seq<char>, Seq<char>)>) -> ParserView {
    ParserView {
        state: ParseState::Headers,
        request: HttpRequestView { method, target, headers, body: Seq::empty() },
    }
}

proof fn lemma_empty_line(input: Seq<u8>)
    requires
        line_length(input) == 0,
    ensures
        line_event(input) == EventView::Line(Seq::<char>::empty()),
        valid_utf8(input.take(0)),
        is_blank(Seq::<char>::empty()),
        request_line(Seq::<char>::empty()).is_none(),
{
    assert(input.take(0) == Seq::<u8>::empty());
    assert(valid_utf8(Seq::<u8>::empty()));
    assert(decode_utf8(Seq::<u8>::empty()) == Seq::<char>::empty());
    assert(skip_ws(Seq::<char>::empty()) == Seq::<char>::empty());
    assert(take_token(Seq::<char>::empty()) == Seq::<char>::empty());
}

proof fn lemma_headers_agree(
    method: Seq<char>,
    target: Seq<char>,
    headers: Seq<(Seq<char>, Seq<char>)>,
    input: Seq<u8>,
)
    ensures
        agree(
            fed(in_headers(method, target, headers), input),
            rest_parsed(method, target, headers, input),
        ),
    decreases input.len(),
{
    let parser = in_headers(method, target, headers);
    let n = line_length(input);
    let raw = input.take(n);
    let rest = input.skip(n);
    let goal = agree(fed(parser, input), rest_parsed(method, target, headers, input));
    lemma_line_length(input);
    if n == 0 {
        lemma_empty_line(input);
        assert(rest == input);
    }
    if !valid_utf8(raw) {
        let next = parser_transition(parser, EventView::IoFailed).0;
        assert(next.state == ParseState::Failed(ProxyError::Io));
        assert(fed(next, rest) == (next, 0int));
        assert(fed(parser, input) == (next, n + 0));
        assert(goal);
    } else {
        let line = decode_utf8(raw);
        let next = parser_transition(parser, EventView::Line(line)).0;
        if n == 0 || is_blank(line) {
            let len = body_length(method, headers);
            assert(headers_from(input, headers) == Ok::<
                (Seq<(Seq<char>, Seq<char>)>, int),
                ProxyError,
            >((headers, n)));
            if len > 0 {
                assert(next == (ParserView { state: ParseState::Body, ..parser }));
                let last = parser_transition(next, body_event(rest, len)).0;
                assert(fed(next, rest) == (
                    last,
                    if rest.len() >= len {
                        len as int
                    } else {
                        0int
                    },
                ));
                if rest.len() >= len {
                    assert(rest.take(len as int) == input.subrange(n, n + len));
                }
                assert(goal);
            } else {
                assert(next == (ParserView { state: ParseState::Done, ..parser }));
                assert(fed(next, rest) == (next, 0int));
                assert(input.subrange(n, n + 0) == Seq::<u8>::empty());
                assert(goal);
            }
        } else {
            let more = with_header_line(headers, line);
            assert(next == in_headers(method, target, more));
            lemma_headers_agree(method, target, more, rest);
            lemma_headers_from_bounds(rest, more);
            assert(fed(parser, input) == (fed(next, rest).0, n + fed(next, rest).1));
            match headers_from(rest, more) {
                Ok((all, m)) => {
                    let len = body_length(method, all);
                    assert(headers_from(input, headers) == Ok::<
                        (Seq<(Seq<char>, Seq<char>)>, int),
                        ProxyError,
                    >((all, n + m)));
                    if rest.len() - m >= len {
                        assert(rest.subrange(m, m + len) == input.subrange(n + m, n + m + len));
                    }
                    assert(goal);
                },
                Err(e) => {
                    assert(headers_from(input, headers) == Err::<
                        (Seq<(Seq<char>, Seq<char>)>, int),
                        ProxyError,
                    >(e));
                    assert(goal);
                },
            }
        }
    }
}

/// The parser, fed from `input` by a reader that gives it what it asks
/// for, ends with the request that `parse_request` finds in `input`, after
/// as many bytes; and where `parse_request` fails, the parser has failed with
/// the same error.
pub proof fn lemma_parser_agrees_with_parse_request(input: Seq<u8>)
    ensures
        agree(fed(fresh_parser(), input), parsed_request(input)),
{
    let parser = fresh_parser();
    let n = line_length(input);
    let raw = input.take(n);
    lemma_line_length(input);
    if n == 0 {
        lemma_empty_line(input);
    }
    if !valid_utf8(raw) {
        let next = parser_transition(parser, EventView::IoFailed).0;
        assert(next.state == ParseState::Failed(ProxyError::Io));
        assert(fed(next, input.skip(n)) == (next, 0int));
    } else {
        let line = decode_utf8(raw);
        let next = parser_transition(parser, EventView::Line(line)).0;
        match request_line(line) {
            None => {
                assert(next.state == ParseState::Failed(ProxyError::BadRequest));
                assert(fed(next, input.skip(n)) == (next, 0int));
                assert(fed(next, input) == (next, 0int));
            },
            Some((method, target)) => {
                assert(next == in_headers(method, target, Seq::empty()));
                let rest = input.skip(n);
                lemma_headers_agree(method, target, Seq::empty(), rest);
                lemma_headers_from_bounds(rest, Seq::empty());
                match headers_from(rest, Seq::empty()) {
                    Ok((all, m)) => {
                        let len = body_length(method, all);
                        if rest.len() - m >= len {
                            assert(rest.subrange(m, m + len) == input.subrange(
                                n + m,
                                n + m + len,
                            ));
                        }
                    },
                    Err(_) => {},
                }
            },
        }
    }
}

} // verus!
