//! Reading a request head and writing it out again are inverse to each
//! other on heads in the form in which they are written, up to the case of
//! the header names.

use crate::error::ProxyError;
use crate::protocols::http::{
    authority, body_length, connect_target, crlf, header_line, header_lines, header_names,
    header_of, headers_from, is_blank, line_length, parsed_request, parser_transition,
    plain_head_text, request_line, request_line_text, with_header, with_header_line,
    HttpRequestView, ParseState, ParserView, Passing,
};
use crate::protocols::EventView;
use crate::text::{
    all_whitespace, decimal_repr, first_named, is_digit, is_whitespace, lemma_decimal_reads_back,
    lemma_find_char_after, lemma_first_named, lemma_skip_ws_prefix, lemma_take_token_prefix,
    lemma_trimmed_between, lemma_trimmed_is_tight, lowercase_of, no_whitespace, rfind_char,
    skip_ws, trimmed,
};
use vstd::prelude::*;
use vstd::utf8::{
    char_is_scalar, char_u32_cast, encode_scalar, encode_utf8, encode_utf8_decode_utf8,
    encode_utf8_valid_utf8, has_width_1_encoding, is_ascii_chars, is_ascii_chars_encode_utf8,
    is_scalar,
};

verus! {

/// A run of characters that reads as one token.
pub open spec fn is_word(s: Seq<char>) -> bool {
    s.len() > 0 && no_whitespace(s)
}

/// No character of `s` is a line feed.
pub open spec fn no_line_feed(s: Seq<char>) -> bool {
    forall|i: int| 0 <= i < s.len() ==> s[i] != '\n'
}

/// A header in the form in which it is written: nothing to trim on either
/// side of the colon, and no colon in the name.
pub open spec fn is_written_header(name: Seq<char>, value: Seq<char>) -> bool {
    &&& trimmed(name) == name
    &&& forall|i: int| 0 <= i < name.len() ==> name[i] != ':'
    &&& trimmed(value) == value
}

/// The headers as they are stored: the names in lowercase.
pub open spec fn stored_headers(headers: Seq<(Seq<char>, Seq<char>)>) -> Seq<
    (Seq<char>, Seq<char>),
> {
    Seq::new(headers.len(), |i: int| (lowercase_of(headers[i].0), headers[i].1))
}

/// The head as it is stored once it has been read.
pub open spec fn as_stored(request: HttpRequestView) -> HttpRequestView {
    HttpRequestView { headers: stored_headers(request.headers), ..request }
}

/// A head in the form in which it is written: method and target are
/// tokens, every header is in written form, no two header names are the same
/// in lowercase, and the body is as long as the headers say, empty for
/// CONNECT.
pub open spec fn is_written_head(request: HttpRequestView) -> bool {
    &&& is_word(request.method)
    &&& is_word(request.target)
    &&& forall|i: int|
        0 <= i < request.headers.len() ==> is_written_header(
            (#[trigger] request.headers[i]).0,
            request.headers[i].1,
        )
    &&& forall|i: int, j: int|
        0 <= i < j < request.headers.len() ==> lowercase_of(request.headers[i].0) != lowercase_of(
            request.headers[j].0,
        )
    &&& request.body.len() == body_length(request.method, stored_headers(request.headers))
}

/// No header holds a line feed, so that each stays on its line.
pub open spec fn stays_on_its_lines(request: HttpRequestView) -> bool {
    forall|i: int|
        0 <= i < request.headers.len() ==> no_line_feed((#[trigger] request.headers[i]).0)
            && no_line_feed(request.headers[i].1)
}

/// Every header name is in lowercase already.
pub open spec fn names_in_lowercase(request: HttpRequestView) -> bool {
    forall|i: int|
        0 <= i < request.headers.len() ==> lowercase_of((#[trigger] request.headers[i]).0)
            == request.headers[i].0
}

/// Every header name takes as many bytes in lowercase as it does as
/// written.
pub open spec fn lowercase_keeps_length(request: HttpRequestView) -> bool {
    forall|i: int|
        0 <= i < request.headers.len() ==> encode_utf8(
            lowercase_of((#[trigger] request.headers[i]).0),
        ).len() == encode_utf8(request.headers[i].0).len()
}

/// A request line as it is written: method, target and version token with
/// one space between them, and the line ending.
pub open spec fn written_request_line(
    method: Seq<char>,
    target: Seq<char>,
    version: Seq<char>,
) -> Seq<char> {
    method + seq![' '] + target + seq![' '] + version + crlf()
}

/// A head as it is written under the version token `version`: what
/// `plain_head_text` gives, but for the token.
pub open spec fn written_head_text(request: HttpRequestView, version: Seq<char>) -> Seq<char> {
    written_request_line(request.method, request.target, version) + header_lines(
        request.headers,
        Passing::Everything,
    ) + crlf()
}

/// A version token that takes as many bytes as `HTTP/1.1` does.
pub open spec fn is_usual_version(version: Seq<char>) -> bool {
    is_word(version) && encode_utf8(version).len() == 8
}

/// The lines of a head as it is written under the version token `version`.
pub open spec fn head_lines(request: HttpRequestView, version: Seq<char>) -> Seq<Seq<char>> {
    seq![written_request_line(request.method, request.target, version)] + Seq::new(
        request.headers.len(),
        |i: int| header_line(request.headers[i].0, request.headers[i].1),
    ) + seq![crlf()]
}

/// Lines put one after the other.
pub open spec fn joined(lines: Seq<Seq<char>>) -> Seq<char>
    decreases lines.len(),
{
    if lines.len() == 0 {
        Seq::empty()
    } else {
        joined(lines.drop_last()) + lines.last()
    }
}

/// The parser after it has been given `lines`, one by one.
pub open spec fn after_lines(parser: ParserView, lines: Seq<Seq<char>>) -> ParserView
    decreases lines.len(),
{
    if lines.len() == 0 {
        parser
    } else {
        after_lines(parser_transition(parser, EventView::Line(lines[0])).0, lines.drop_first())
    }
}

/// A parser that has seen nothing yet.
pub open spec fn fresh_parser() -> ParserView {
    ParserView {
        state: ParseState::RequestLine,
        request: HttpRequestView {
            method: Seq::empty(),
            target: Seq::empty(),
            headers: Seq::empty(),
            body: Seq::empty(),
        },
    }
}

/// The parser after the whole of `request` as it is written: its lines,
/// then its body if it has one.
pub open spec fn after_head(request: HttpRequestView, version: Seq<char>) -> ParserView {
    let read = after_lines(fresh_parser(), head_lines(request, version));
    if request.body.len() > 0 {
        parser_transition(read, EventView::Received(request.body)).0
    } else {
        read
    }
}

proof fn lemma_line_ending_is_blank()
    ensures
        all_whitespace(crlf()),
        is_blank(crlf()),
{
    assert(is_whitespace('\r'));
    assert(is_whitespace('\n'));
    lemma_skip_ws_prefix(crlf(), Seq::<char>::empty());
    assert(crlf() + Seq::<char>::empty() == crlf());
}

/// A request line that is written from three tokens reads back as the
/// first two, whatever the third.
pub proof fn lemma_request_line_reads_back(
    method: Seq<char>,
    target: Seq<char>,
    version: Seq<char>,
)
    requires
        is_word(method),
        is_word(target),
        is_word(version),
    ensures
        request_line(written_request_line(method, target, version)) == Some((method, target)),
{
    let tail = seq![' '] + version;
    assert(is_whitespace(' '));
    lemma_line_ending_is_blank();
    let line = written_request_line(method, target, version);
    let after_method = seq![' '] + target + tail + crlf();
    assert(line == method + after_method);
    assert(!is_whitespace(method[0]));
    assert(line[0] == method[0]);
    assert(skip_ws(line) == line);
    assert(after_method[0] == ' ');
    lemma_take_token_prefix(method, after_method);
    assert(line.skip(method.len() as int) == after_method);
    let after_gap = target + tail + crlf();
    assert(after_method == seq![' '] + after_gap);
    assert(all_whitespace(seq![' ']));
    lemma_skip_ws_prefix(seq![' '], after_gap);
    assert(after_gap[0] == target[0]);
    assert(!is_whitespace(target[0]));
    assert(skip_ws(after_gap) == after_gap);
    let after_target = tail + crlf();
    assert(after_gap == target + after_target);
    assert(after_target[0] == ' ');
    lemma_take_token_prefix(target, after_target);
    assert(after_gap.skip(target.len() as int) == after_target);
    let after_space = version + crlf();
    assert(after_target == seq![' '] + after_space);
    lemma_skip_ws_prefix(seq![' '], after_space);
    assert(after_space[0] == version[0]);
    assert(!is_whitespace(version[0]));
    assert(skip_ws(after_space) == after_space);
    assert(crlf()[0] == '\r');
    lemma_take_token_prefix(version, crlf());
    assert(after_space.skip(version.len() as int) == crlf());
}

/// `HTTP/1.1` is a version token of the usual length, and what
/// `plain_head_text` writes is the written form under it.
pub proof fn lemma_plain_head_is_written(request: HttpRequestView)
    ensures
        is_usual_version("HTTP/1.1"@),
        request_line_text(request.method, request.target) == written_request_line(
            request.method,
            request.target,
            "HTTP/1.1"@,
        ),
        plain_head_text(request) == written_head_text(request, "HTTP/1.1"@),
{
    reveal_strlit(" HTTP/1.1");
    reveal_strlit("HTTP/1.1");
    let usual = "HTTP/1.1"@;
    assert(" HTTP/1.1"@ == seq![' '] + usual);
    assert(no_whitespace(usual)) by {
        assert forall|i: int| 0 <= i < usual.len() implies !is_whitespace(#[trigger] usual[i]) by {
            assert(usual == seq!['H', 'T', 'T', 'P', '/', '1', '.', '1']);
        }
    }
    assert(is_ascii_chars(usual)) by {
        assert(usual == seq!['H', 'T', 'T', 'P', '/', '1', '.', '1']);
    }
    is_ascii_chars_encode_utf8(usual);
    assert(request_line_text(request.method, request.target) == written_request_line(
        request.method,
        request.target,
        usual,
    ));
}

/// A header that is written on a line reads back with its name in
/// lowercase and its value as it is, and its line does not end the headers.
pub proof fn lemma_header_line_reads_back(name: Seq<char>, value: Seq<char>)
    requires
        is_written_header(name, value),
    ensures
        header_of(header_line(name, value)) == Some((lowercase_of(name), value)),
        !is_blank(header_line(name, value)),
{
    let line = header_line(name, value);
    let rest = seq![' '] + value + crlf();
    assert(line == name + seq![':'] + rest);
    lemma_find_char_after(name, ':', rest);
    assert(line.take(name.len() as int) == name);
    assert(line.skip(name.len() + 1 as int) == rest);
    assert(is_whitespace(' '));
    assert(all_whitespace(seq![' ']));
    lemma_line_ending_is_blank();
    lemma_trimmed_between(seq![' '], value, crlf());
    lemma_trimmed_is_tight(name);
    assert(!is_whitespace(':'));
    if name.len() == 0 {
        assert(line[0] == ':');
    } else {
        assert(line[0] == name[0]);
    }
    assert(skip_ws(line) == line);
}

proof fn lemma_new_name_is_appended(
    headers: Seq<(Seq<char>, Seq<char>)>,
    name: Seq<char>,
    value: Seq<char>,
)
    requires
        forall|i: int| 0 <= i < headers.len() ==> headers[i].0 != name,
    ensures
        with_header(headers, name, value) == headers.push((name, value)),
{
    let names = header_names(headers);
    lemma_first_named(names, name);
    let at = first_named(names, name);
    if at < names.len() {
        assert(names[at] == headers[at].0);
    }
}

/// The header lines from `from` on, and the line that ends them.
spec fn lines_from(request: HttpRequestView, from: int) -> Seq<Seq<char>> {
    Seq::new(
        (request.headers.len() - from) as nat,
        |i: int| header_line(request.headers[from + i].0, request.headers[from + i].1),
    ) + seq![crlf()]
}

spec fn reading_headers(request: HttpRequestView, from: int) -> ParserView {
    ParserView {
        state: ParseState::Headers,
        request: HttpRequestView {
            method: request.method,
            target: request.target,
            headers: stored_headers(request.headers).take(from),
            body: Seq::empty(),
        },
    }
}

spec fn headers_read(request: HttpRequestView) -> ParserView {
    ParserView {
        state: if request.body.len() > 0 {
            ParseState::Body
        } else {
            ParseState::Done
        },
        request: HttpRequestView {
            method: request.method,
            target: request.target,
            headers: stored_headers(request.headers),
            body: Seq::empty(),
        },
    }
}

/// The header that comes next is new to those that were stored before it.
proof fn lemma_next_header_is_new(request: HttpRequestView, from: int)
    requires
        is_written_head(request),
        0 <= from < request.headers.len(),
    ensures
        with_header_line(
            stored_headers(request.headers).take(from),
            header_line(request.headers[from].0, request.headers[from].1),
        ) == stored_headers(request.headers).take(from + 1),
{
    let (name, value) = request.headers[from];
    let stored = stored_headers(request.headers);
    lemma_header_line_reads_back(name, value);
    let so_far = stored.take(from);
    assert forall|i: int| 0 <= i < so_far.len() implies so_far[i].0 != lowercase_of(name) by {
        assert(so_far[i] == stored[i]);
    }
    lemma_new_name_is_appended(so_far, lowercase_of(name), value);
    assert(so_far.push((lowercase_of(name), value)) == stored.take(from + 1));
}

proof fn lemma_headers_read_back(request: HttpRequestView, from: int)
    requires
        is_written_head(request),
        0 <= from <= request.headers.len(),
    ensures
        after_lines(reading_headers(request, from), lines_from(request, from)) == headers_read(
            request,
        ),
    decreases request.headers.len() - from,
{
    let parser = reading_headers(request, from);
    let lines = lines_from(request, from);
    if from == request.headers.len() {
        lemma_line_ending_is_blank();
        assert(lines == seq![crlf()]);
        assert(lines[0] == crlf());
        assert(stored_headers(request.headers).take(from) == stored_headers(request.headers));
        let next = parser_transition(parser, EventView::Line(crlf())).0;
        assert(next == headers_read(request));
        assert(lines.drop_first().len() == 0);
        assert(after_lines(next, lines.drop_first()) == next);
    } else {
        let (name, value) = request.headers[from];
        let line = header_line(name, value);
        assert(lines[0] == line);
        lemma_header_line_reads_back(name, value);
        lemma_next_header_is_new(request, from);
        let next = parser_transition(parser, EventView::Line(line)).0;
        assert(next == reading_headers(request, from + 1));
        assert(lines.drop_first() == lines_from(request, from + 1));
        lemma_headers_read_back(request, from + 1);
    }
}

proof fn lemma_joined_head(request: HttpRequestView, version: Seq<char>, upto: int)
    requires
        0 <= upto <= request.headers.len(),
    ensures
        joined(
            seq![written_request_line(request.method, request.target, version)] + Seq::new(
                upto as nat,
                |i: int| header_line(request.headers[i].0, request.headers[i].1),
            ),
        ) == written_request_line(request.method, request.target, version) + header_lines(
            request.headers.take(upto),
            Passing::Everything,
        ),
    decreases upto,
{
    let first = written_request_line(request.method, request.target, version);
    let lines = seq![first] + Seq::new(
        upto as nat,
        |i: int| header_line(request.headers[i].0, request.headers[i].1),
    );
    if upto == 0 {
        assert(lines == seq![first]);
        assert(lines.drop_last().len() == 0);
        assert(joined(lines.drop_last()) == Seq::<char>::empty());
        assert(joined(lines) == Seq::<char>::empty() + first);
        assert(request.headers.take(0).len() == 0);
        assert(first + Seq::<char>::empty() == first);
        assert(Seq::<char>::empty() + first == first);
    } else {
        lemma_joined_head(request, version, upto - 1);
        let before = seq![first] + Seq::new(
            (upto - 1) as nat,
            |i: int| header_line(request.headers[i].0, request.headers[i].1),
        );
        assert(lines.drop_last() == before);
        let last = request.headers[upto - 1];
        assert(lines.last() == header_line(last.0, last.1));
        assert(request.headers.take(upto).drop_last() == request.headers.take(upto - 1));
        assert(request.headers.take(upto).last() == last);
        assert(joined(lines) == (first + header_lines(
            request.headers.take(upto - 1),
            Passing::Everything,
        )) + header_line(last.0, last.1));
    }
}

/// What is read is what was written. For a head in the form in which it
/// is written, under any version token, the parser that is given its lines,
/// and then the body, ends with that very head, its header names in
/// lowercase; and those lines, put together, are the written text character
/// for character.
pub proof fn lemma_written_head_reads_back(request: HttpRequestView, version: Seq<char>)
    requires
        is_written_head(request),
        is_word(version),
    ensures
        after_head(request, version) == (
            ParserView { state: ParseState::Done, request: as_stored(request) }
        ),
        joined(head_lines(request, version)) == written_head_text(request, version),
{
    let first = written_request_line(request.method, request.target, version);
    let lines = head_lines(request, version);
    lemma_request_line_reads_back(request.method, request.target, version);
    assert(lines[0] == first);
    let started = parser_transition(fresh_parser(), EventView::Line(first)).0;
    assert(stored_headers(request.headers).take(0) == Seq::<(Seq<char>, Seq<char>)>::empty());
    assert(started == reading_headers(request, 0));
    assert(lines.drop_first() == lines_from(request, 0));
    lemma_headers_read_back(request, 0);
    let read = after_lines(fresh_parser(), lines);
    assert(read == headers_read(request));
    if request.body.len() == 0 {
        assert(request.body == Seq::<u8>::empty());
    }
    let head = seq![first] + Seq::new(
        request.headers.len(),
        |i: int| header_line(request.headers[i].0, request.headers[i].1),
    );
    lemma_joined_head(request, version, request.headers.len() as int);
    assert(request.headers.take(request.headers.len() as int) == request.headers);
    assert(lines.drop_last() == head);
    assert(lines.last() == crlf());
}

proof fn lemma_scalar_bytes(s: u32)
    requires
        is_scalar(s),
    ensures
        encode_scalar(s).len() >= 1,
        s == 0x0A ==> encode_scalar(s) == seq![0x0Au8],
        s != 0x0A ==> forall|j: int|
            0 <= j < encode_scalar(s).len() ==> encode_scalar(s)[j] != 0x0Au8,
{
    if has_width_1_encoding(s) {
        assert(((s & 0x7F) as u8 == 0x0Au8) <==> s == 0x0A) by (bit_vector)
            requires
                s <= 0x7F,
        ;
    } else {
        assert((0x80u8 | (s & 0x3F) as u8) != 0x0Au8) by (bit_vector);
        assert((0x80u8 | ((s >> 6) & 0x3F) as u8) != 0x0Au8) by (bit_vector);
        assert((0x80u8 | ((s >> 12) & 0x3F) as u8) != 0x0Au8) by (bit_vector);
        assert((0xC0u8 | ((s >> 6) & 0x1F) as u8) != 0x0Au8) by (bit_vector);
        assert((0xE0u8 | ((s >> 12) & 0x0F) as u8) != 0x0Au8) by (bit_vector);
        assert((0xF0u8 | ((s >> 18) & 0x7) as u8) != 0x0Au8) by (bit_vector);
    }
}

proof fn lemma_encode_concat(a: Seq<char>, b: Seq<char>)
    ensures
        encode_utf8(a + b) == encode_utf8(a) + encode_utf8(b),
    decreases a.len(),
{
    if a.len() == 0 {
        assert(a + b == b);
    } else {
        assert((a + b)[0] == a[0]);
        assert((a + b).drop_first() == a.drop_first() + b);
        lemma_encode_concat(a.drop_first(), b);
    }
}

proof fn lemma_encoded_without_line_feed(text: Seq<char>)
    requires
        no_line_feed(text),
    ensures
        forall|j: int| 0 <= j < encode_utf8(text).len() ==> encode_utf8(text)[j] != 0x0Au8,
    decreases text.len(),
{
    if text.len() > 0 {
        char_is_scalar(text[0]);
        lemma_scalar_bytes(text[0] as u32);
        assert(text[0] as u32 != 0x0A) by {
            if text[0] as u32 == 0x0A {
                char_u32_cast(text[0], 0x0Au32);
            }
        }
        assert forall|i: int| 0 <= i < text.drop_first().len() implies text.drop_first()[i]
            != '\n' by {
            assert(text.drop_first()[i] == text[i + 1]);
        }
        lemma_encoded_without_line_feed(text.drop_first());
        let first = encode_scalar(text[0] as u32);
        let others = encode_utf8(text.drop_first());
        assert(encode_utf8(text) == first + others);
        assert forall|j: int| 0 <= j < encode_utf8(text).len() implies encode_utf8(text)[j]
            != 0x0Au8 by {
            if j < first.len() {
                assert(encode_utf8(text)[j] == first[j]);
            } else {
                assert(encode_utf8(text)[j] == others[j - first.len()]);
            }
        }
    }
}

proof fn lemma_line_length_after(before: Seq<u8>, rest: Seq<u8>)
    requires
        forall|j: int| 0 <= j < before.len() ==> before[j] != 0x0Au8,
    ensures
        line_length(before + rest) == before.len() + line_length(rest),
    decreases before.len(),
{
    if before.len() == 0 {
        assert(before + rest == rest);
    } else {
        assert((before + rest)[0] == before[0]);
        assert((before + rest).drop_first() == before.drop_first() + rest);
        assert forall|j: int| 0 <= j < before.drop_first().len() implies before.drop_first()[j]
            != 0x0Au8 by {
            assert(before.drop_first()[j] == before[j + 1]);
        }
        lemma_line_length_after(before.drop_first(), rest);
    }
}

/// A line of text that ends in its only line feed is one line of bytes.
proof fn lemma_encoded_line(body: Seq<char>, after: Seq<u8>)
    requires
        no_line_feed(body),
    ensures
        line_length(encode_utf8(body + seq!['\n']) + after) == encode_utf8(
            body + seq!['\n'],
        ).len(),
        encode_utf8(body + seq!['\n']).len() > 0,
        (encode_utf8(body + seq!['\n']) + after).take(
            encode_utf8(body + seq!['\n']).len() as int,
        ) == encode_utf8(body + seq!['\n']),
        (encode_utf8(body + seq!['\n']) + after).skip(
            encode_utf8(body + seq!['\n']).len() as int,
        ) == after,
{
    let line = body + seq!['\n'];
    lemma_encode_concat(body, seq!['\n']);
    char_is_scalar('\n');
    lemma_scalar_bytes('\n' as u32);
    assert(seq!['\n'].drop_first() == Seq::<char>::empty());
    assert(encode_utf8(seq!['\n']) == encode_scalar('\n' as u32) + encode_utf8(
        Seq::<char>::empty(),
    ));
    assert(encode_utf8(seq!['\n']) == seq![0x0Au8]);
    lemma_encoded_without_line_feed(body);
    let feed = seq![0x0Au8] + after;
    assert(encode_utf8(line) + after == encode_utf8(body) + feed);
    lemma_line_length_after(encode_utf8(body), feed);
    assert(feed[0] == 0x0Au8);
    assert(line_length(feed) == 1);
}

/// The text of the header lines from `from` on.
spec fn header_text_from(headers: Seq<(Seq<char>, Seq<char>)>, from: int) -> Seq<char>
    decreases headers.len() - from,
{
    if from < 0 || from >= headers.len() {
        Seq::empty()
    } else {
        header_line(headers[from].0, headers[from].1) + header_text_from(headers, from + 1)
    }
}

proof fn lemma_header_text_split(headers: Seq<(Seq<char>, Seq<char>)>, at: int)
    requires
        0 <= at <= headers.len(),
    ensures
        header_lines(headers, Passing::Everything) == header_lines(
            headers.take(at),
            Passing::Everything,
        ) + header_text_from(headers, at),
    decreases headers.len() - at,
{
    if at == headers.len() {
        assert(headers.take(at) == headers);
        assert(header_lines(headers, Passing::Everything) + Seq::<char>::empty() == header_lines(
            headers,
            Passing::Everything,
        ));
    } else {
        lemma_header_text_split(headers, at + 1);
        let next = headers.take(at + 1);
        assert(next.drop_last() == headers.take(at));
        assert(next.last() == headers[at]);
        let done = header_lines(headers.take(at), Passing::Everything);
        let line = header_line(headers[at].0, headers[at].1);
        assert((done + line) + header_text_from(headers, at + 1) == done + (line
            + header_text_from(headers, at + 1)));
    }
}

proof fn lemma_header_line_is_one_line(name: Seq<char>, value: Seq<char>)
    requires
        no_line_feed(name),
        no_line_feed(value),
    ensures
        header_line(name, value) == (name + seq![':', ' '] + value + seq!['\r']) + seq!['\n'],
        no_line_feed(name + seq![':', ' '] + value + seq!['\r']),
{
    assert(crlf() == seq!['\r'] + seq!['\n']);
    let body = name + seq![':', ' '] + value + seq!['\r'];
    assert forall|i: int| 0 <= i < body.len() implies body[i] != '\n' by {
        if i < name.len() {
            assert(body[i] == name[i]);
        } else if i < name.len() + 2 {
        } else if i < name.len() + 2 + value.len() {
            assert(body[i] == value[i - name.len() - 2]);
        }
    }
}

proof fn lemma_headers_parse_back(request: HttpRequestView, from: int, after: Seq<u8>)
    requires
        is_written_head(request),
        stays_on_its_lines(request),
        0 <= from <= request.headers.len(),
    ensures
        headers_from(
            encode_utf8(header_text_from(request.headers, from) + crlf()) + after,
            stored_headers(request.headers).take(from),
        ) == Ok::<(Seq<(Seq<char>, Seq<char>)>, int), ProxyError>(
            (
                stored_headers(request.headers),
                encode_utf8(header_text_from(request.headers, from) + crlf()).len() as int,
            ),
        ),
    decreases request.headers.len() - from,
{
    let text = header_text_from(request.headers, from) + crlf();
    let input = encode_utf8(text) + after;
    assert(crlf() == seq!['\r'] + seq!['\n']);
    lemma_line_ending_is_blank();
    if from == request.headers.len() {
        assert(text == crlf());
        assert(no_line_feed(seq!['\r']));
        lemma_encoded_line(seq!['\r'], after);
        encode_utf8_valid_utf8(crlf());
        encode_utf8_decode_utf8(crlf());
        assert(stored_headers(request.headers).take(from) == stored_headers(request.headers));
    } else {
        let (name, value) = request.headers[from];
        let line = header_line(name, value);
        let tail = header_text_from(request.headers, from + 1) + crlf();
        assert(text == line + tail);
        lemma_encode_concat(line, tail);
        let rest = encode_utf8(tail) + after;
        assert(input == encode_utf8(line) + rest);
        lemma_header_line_is_one_line(name, value);
        lemma_encoded_line(name + seq![':', ' '] + value + seq!['\r'], rest);
        encode_utf8_valid_utf8(line);
        encode_utf8_decode_utf8(line);
        lemma_header_line_reads_back(name, value);
        lemma_next_header_is_new(request, from);
        lemma_headers_parse_back(request, from + 1, after);
        let n = encode_utf8(line).len() as int;
        assert(line_length(input) == n);
        assert(input.take(n) == encode_utf8(line));
        assert(input.skip(n) == rest);
    }
}

/// For a head in the form in which it is written, under any version
/// token, and whose headers hold no line feed: the bytes of the written text,
/// followed by the body and by anything else, parse as that very head, its
/// header names in lowercase; and the bytes taken are those of the head and
/// the body, no more and no fewer.
pub proof fn lemma_written_request_parses_back(
    request: HttpRequestView,
    version: Seq<char>,
    rest: Seq<u8>,
)
    requires
        is_written_head(request),
        stays_on_its_lines(request),
        is_word(version),
    ensures
        parsed_request(
            encode_utf8(written_head_text(request, version)) + request.body + rest,
        ) == Ok::<(HttpRequestView, int), ProxyError>(
            (
                as_stored(request),
                (encode_utf8(written_head_text(request, version)).len()
                    + request.body.len()) as int,
            ),
        ),
{
    let first = written_request_line(request.method, request.target, version);
    let headers_text = header_lines(request.headers, Passing::Everything);
    let text = written_head_text(request, version);
    let after = request.body + rest;
    let input = encode_utf8(text) + request.body + rest;
    assert(input == encode_utf8(text) + after);
    lemma_header_text_split(request.headers, 0);
    assert(request.headers.take(0) == Seq::<(Seq<char>, Seq<char>)>::empty());
    assert(stored_headers(request.headers).take(0) == Seq::<(Seq<char>, Seq<char>)>::empty());
    assert(header_lines(request.headers.take(0), Passing::Everything) == Seq::<char>::empty());
    assert(headers_text == header_text_from(request.headers, 0));
    let tail = header_text_from(request.headers, 0) + crlf();
    assert(text == first + tail);
    lemma_encode_concat(first, tail);
    let following = encode_utf8(tail) + after;
    assert(input == encode_utf8(first) + following);
    // The request line is one line.
    assert(crlf() == seq!['\r'] + seq!['\n']);
    let body = request.method + seq![' '] + request.target + seq![' '] + version + seq!['\r'];
    assert(first == body + seq!['\n']);
    assert(is_whitespace('\n'));
    let m = request.method.len();
    let t = request.target.len();
    assert forall|i: int| 0 <= i < body.len() implies body[i] != '\n' by {
        if i < m {
            assert(body[i] == request.method[i]);
        } else if i < m + 1 {
        } else if i < m + 1 + t {
            assert(body[i] == request.target[i - m - 1]);
        } else if i < m + 1 + t + 1 {
        } else if i < m + 1 + t + 1 + version.len() {
            assert(body[i] == version[i - m - 1 - t - 1]);
        }
    }
    lemma_encoded_line(body, following);
    encode_utf8_valid_utf8(first);
    encode_utf8_decode_utf8(first);
    lemma_request_line_reads_back(request.method, request.target, version);
    lemma_headers_parse_back(request, 0, after);
    let n = encode_utf8(first).len() as int;
    let m = encode_utf8(tail).len() as int;
    assert(line_length(input) == n);
    assert(input.take(n) == encode_utf8(first));
    assert(input.skip(n) == following);
    assert(encode_utf8(text).len() == n + m);
    let len = request.body.len() as int;
    assert(input.subrange(n + m, n + m + len) == request.body);
}

/// A head whose header names are in lowercase is stored as it is written.
pub proof fn lemma_lowercase_head_is_stored_as_written(request: HttpRequestView)
    requires
        names_in_lowercase(request),
    ensures
        as_stored(request) == request,
{
    assert(stored_headers(request.headers) == request.headers);
}

proof fn lemma_header_line_length(name: Seq<char>, value: Seq<char>)
    ensures
        encode_utf8(header_line(name, value)).len() == encode_utf8(name).len() + encode_utf8(
            seq![':', ' '],
        ).len() + encode_utf8(value).len() + encode_utf8(crlf()).len(),
{
    lemma_encode_concat(name + seq![':', ' '] + value, crlf());
    lemma_encode_concat(name + seq![':', ' '], value);
    lemma_encode_concat(name, seq![':', ' ']);
}

proof fn lemma_header_lines_length(headers: Seq<(Seq<char>, Seq<char>)>)
    requires
        forall|i: int|
            0 <= i < headers.len() ==> encode_utf8(lowercase_of((#[trigger] headers[i]).0)).len()
                == encode_utf8(headers[i].0).len(),
    ensures
        encode_utf8(header_lines(stored_headers(headers), Passing::Everything)).len()
            == encode_utf8(header_lines(headers, Passing::Everything)).len(),
    decreases headers.len(),
{
    if headers.len() > 0 {
        let stored = stored_headers(headers);
        let last = headers.last();
        assert(stored.drop_last() == stored_headers(headers.drop_last()));
        assert(stored.last() == (lowercase_of(last.0), last.1));
        assert forall|i: int| 0 <= i < headers.drop_last().len() implies encode_utf8(
            lowercase_of((#[trigger] headers.drop_last()[i]).0),
        ).len() == encode_utf8(headers.drop_last()[i].0).len() by {
            assert(headers.drop_last()[i] == headers[i]);
        }
        lemma_header_lines_length(headers.drop_last());
        lemma_header_line_length(last.0, last.1);
        lemma_header_line_length(lowercase_of(last.0), last.1);
        lemma_encode_concat(
            header_lines(headers.drop_last(), Passing::Everything),
            header_line(last.0, last.1),
        );
        lemma_encode_concat(
            header_lines(stored.drop_last(), Passing::Everything),
            header_line(lowercase_of(last.0), last.1),
        );
    }
}

proof fn lemma_request_line_length(method: Seq<char>, target: Seq<char>, version: Seq<char>)
    ensures
        encode_utf8(written_request_line(method, target, version)).len() == encode_utf8(
            method,
        ).len() + encode_utf8(seq![' ']).len() + encode_utf8(target).len() + encode_utf8(
            seq![' '],
        ).len() + encode_utf8(version).len() + encode_utf8(crlf()).len(),
{
    lemma_encode_concat(method + seq![' '] + target + seq![' '] + version, crlf());
    lemma_encode_concat(method + seq![' '] + target + seq![' '], version);
    lemma_encode_concat(method + seq![' '] + target, seq![' ']);
    lemma_encode_concat(method + seq![' '], target);
    lemma_encode_concat(method, seq![' ']);
}

/// What `plain_request` writes for a head once it is stored is as long as
/// the head was as written, provided that the version token has the usual
/// length and that lowercase keeps the byte length of every header name.
pub proof fn lemma_stored_head_has_same_length(request: HttpRequestView, version: Seq<char>)
    requires
        lowercase_keeps_length(request),
        is_usual_version(version),
    ensures
        encode_utf8(plain_head_text(as_stored(request))).len() == encode_utf8(
            written_head_text(request, version),
        ).len(),
{
    let usual = "HTTP/1.1"@;
    lemma_plain_head_is_written(as_stored(request));
    let first = written_request_line(request.method, request.target, version);
    let plain_first = written_request_line(request.method, request.target, usual);
    let written = header_lines(request.headers, Passing::Everything);
    let stored = header_lines(stored_headers(request.headers), Passing::Everything);
    lemma_request_line_length(request.method, request.target, version);
    lemma_request_line_length(request.method, request.target, usual);
    lemma_header_lines_length(request.headers);
    lemma_encode_concat(first + written, crlf());
    lemma_encode_concat(first, written);
    lemma_encode_concat(plain_first + stored, crlf());
    lemma_encode_concat(plain_first, stored);
}

/// Reading a head and writing it out again keeps its length in bytes, up
/// to the case of the header names. For a head in the form in which it is
/// written, under any version token of the usual length, `parse_request`
/// succeeds on its bytes, and the bytes that it takes are as many as
/// `plain_request` gives for what it read, provided that lowercase does not
/// change the byte length of a header name.
pub proof fn lemma_reading_keeps_byte_length(
    request: HttpRequestView,
    version: Seq<char>,
    rest: Seq<u8>,
)
    requires
        is_written_head(request),
        stays_on_its_lines(request),
        lowercase_keeps_length(request),
        is_usual_version(version),
    ensures
        parsed_request(
            encode_utf8(written_head_text(request, version)) + request.body + rest,
        ) matches Ok((read, taken)) && taken == encode_utf8(plain_head_text(read)).len()
            + read.body.len(),
{
    lemma_written_request_parses_back(request, version, rest);
    lemma_stored_head_has_same_length(request, version);
}

/// What `parse_request` takes in is what `plain_request` puts out: the
/// bytes that `plain_request` writes for a head in written form, followed by
/// anything else, parse as that very head, its header names in lowercase, and
/// the bytes taken are those that were written.
pub proof fn lemma_plain_request_parses_back(request: HttpRequestView, rest: Seq<u8>)
    requires
        is_written_head(request),
        stays_on_its_lines(request),
    ensures
        parsed_request(encode_utf8(plain_head_text(request)) + request.body + rest) == Ok::<
            (HttpRequestView, int),
            ProxyError,
        >(
            (
                as_stored(request),
                (encode_utf8(plain_head_text(request)).len() + request.body.len()) as int,
            ),
        ),
{
    lemma_plain_head_is_written(request);
    lemma_written_request_parses_back(request, "HTTP/1.1"@, rest);
}

proof fn lemma_rfind_char_before(before: Seq<char>, c: char, rest: Seq<char>)
    requires
        forall|i: int| 0 <= i < rest.len() ==> rest[i] != c,
    ensures
        rfind_char(before + seq![c] + rest, c) == before.len(),
    decreases rest.len(),
{
    let whole = before + seq![c] + rest;
    if rest.len() == 0 {
        assert(whole.last() == c);
    } else {
        assert(whole.last() == rest.last());
        assert(whole.drop_last() == before + seq![c] + rest.drop_last());
        assert forall|i: int| 0 <= i < rest.drop_last().len() implies rest.drop_last()[i] != c by {
            assert(rest.drop_last()[i] == rest[i]);
        }
        lemma_rfind_char_before(before, c, rest.drop_last());
    }
}

/// A CONNECT target that is written as `host:port` reads back as that host
/// and that port, whatever the host: a proxy further up that reads targets
/// by the same rule gets what the client asked for.
pub proof fn lemma_connect_target_reads_back(host: Seq<char>, port: u16)
    ensures
        connect_target(authority(host, port)) == Some((host, port)),
{
    let digits = decimal_repr(port as nat);
    let target = authority(host, port);
    lemma_decimal_reads_back(port as nat);
    assert forall|i: int| 0 <= i < digits.len() implies digits[i] != ':' by {
        assert(is_digit(digits[i]));
    }
    lemma_rfind_char_before(host, ':', digits);
    assert(target.skip(host.len() + 1 as int) == digits);
    assert(target.take(host.len() as int) == host);
}

} // verus!
