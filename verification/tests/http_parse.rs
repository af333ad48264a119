use proxy_twister::error::ProxyError;
use proxy_twister::protocols::http::{
    apply_header_line, body_to_read, declared_length, find_header, handle_connect, is_blank_line,
    parse_header_line, parse_request, parse_request_line, set_header, ClientReply, HttpRequest,
    ParseState, RequestParser,
};
use proxy_twister::protocols::{Action, Event, Wait};

fn chars(s: &str) -> Vec<char> {
    s.chars().collect()
}

fn pair(a: &str, b: &str) -> (String, String) {
    (a.to_string(), b.to_string())
}

fn request(method: &str, target: &str, headers: Vec<(String, String)>, body: &[u8]) -> HttpRequest {
    HttpRequest {
        method: method.to_string(),
        target: target.to_string(),
        headers,
        body: body.to_vec(),
    }
}

fn read_line() -> Action {
    Action::Exchange { send: vec![], wait: Wait::Line }
}

#[test]
fn request_line_needs_three_tokens() {
    assert_eq!(parse_request_line(&chars("GET / HTTP/1.1\r\n")), Some(pair("GET", "/")));
    assert_eq!(
        parse_request_line(&chars("  CONNECT \t example.com:443   HTTP/1.1 ")),
        Some(pair("CONNECT", "example.com:443"))
    );
    assert_eq!(parse_request_line(&chars("GET /\r\n")), None);
    assert_eq!(parse_request_line(&chars("GET / HTTP/1.1 extra\r\n")), None);
    assert_eq!(parse_request_line(&chars("\r\n")), None);
    assert_eq!(parse_request_line(&chars("")), None);
    assert_eq!(parse_request_line(&chars("a\u{A0}b\u{3000}c")), Some(pair("a", "b")));
}

#[test]
fn header_line_is_split_at_the_first_colon() {
    assert_eq!(parse_header_line(&chars("Host: example.com\r\n")), Some(pair("host", "example.com")));
    assert_eq!(
        parse_header_line(&chars("  X-Custom-Header :  a: b  \r\n")),
        Some(pair("x-custom-header", "a: b"))
    );
    assert_eq!(parse_header_line(&chars("no colon here\r\n")), None);
    assert_eq!(parse_header_line(&chars(":\r\n")), Some(pair("", "")));
    assert_eq!(parse_header_line(&chars("ÄB: Ü")), Some(pair("äb", "Ü")));
}

#[test]
fn blank_lines_end_the_headers() {
    assert!(is_blank_line(&chars("\r\n")));
    assert!(is_blank_line(&chars("\n")));
    assert!(is_blank_line(&chars("")));
    assert!(is_blank_line(&chars(" \t \r\n")));
    assert!(!is_blank_line(&chars("x\r\n")));
    assert!(!is_blank_line(&chars(" : \r\n")));
}

#[test]
fn headers_are_an_ordered_map() {
    let mut headers: Vec<(String, String)> = Vec::new();
    set_header(&mut headers, "a".to_string(), "1".to_string());
    set_header(&mut headers, "b".to_string(), "2".to_string());
    set_header(&mut headers, "a".to_string(), "3".to_string());
    assert_eq!(headers, vec![pair("a", "3"), pair("b", "2")]);
    assert_eq!(find_header(&headers, "b"), Some(1));
    assert_eq!(find_header(&headers, "a"), Some(0));
    assert_eq!(find_header(&headers, "c"), None);
    apply_header_line(&mut headers, &chars("B: again\r\n"));
    apply_header_line(&mut headers, &chars("not a header\r\n"));
    apply_header_line(&mut headers, &chars("C:new\r\n"));
    assert_eq!(headers, vec![pair("a", "3"), pair("b", "again"), pair("c", "new")]);
}

#[test]
fn content_length_counts_only_when_it_is_a_number() {
    assert_eq!(declared_length(&vec![pair("content-length", "42")]), 42);
    assert_eq!(declared_length(&vec![pair("content-length", "+7")]), 7);
    assert_eq!(declared_length(&vec![pair("content-length", "0")]), 0);
    assert_eq!(declared_length(&vec![pair("content-length", "abc")]), 0);
    assert_eq!(declared_length(&vec![pair("content-length", "-1")]), 0);
    assert_eq!(declared_length(&vec![pair("content-length", "")]), 0);
    assert_eq!(declared_length(&vec![pair("content-length", "99999999999999999999999")]), 0);
    assert_eq!(declared_length(&vec![pair("host", "x")]), 0);
    assert_eq!(declared_length(&vec![]), 0);
}

#[test]
fn parses_a_get_with_headers() {
    let input = b"GET http://example.com/x HTTP/1.1\r\nHost: example.com\r\nAccept: */*\r\n\r\n";
    let (req, consumed) = parse_request(input).expect("parses");
    assert_eq!(
        req,
        request(
            "GET",
            "http://example.com/x",
            vec![pair("host", "example.com"), pair("accept", "*/*")],
            b""
        )
    );
    assert_eq!(consumed, input.len());
}

#[test]
fn parses_a_connect_with_empty_body() {
    let input = b"CONNECT 127.0.0.1:8443 HTTP/1.1\r\nHost: 127.0.0.1:8443\r\n\r\nGET / HTTP/1.1\r\n";
    let (req, consumed) = parse_request(input).expect("parses");
    assert_eq!(req.method, "CONNECT");
    assert_eq!(req.target, "127.0.0.1:8443");
    assert_eq!(req.headers, vec![pair("host", "127.0.0.1:8443")]);
    assert!(req.body.is_empty());
    assert_eq!(consumed, 57);
}

#[test]
fn reads_the_body_that_content_length_announces() {
    let input = b"POST /submit HTTP/1.1\r\nContent-Length: 5\r\nX-A:  b  \r\n\r\nhelloEXTRA";
    let (req, consumed) = parse_request(input).expect("parses");
    assert_eq!(
        req,
        request("POST", "/submit", vec![pair("content-length", "5"), pair("x-a", "b")], b"hello")
    );
    assert_eq!(consumed, input.len() - 5);
}

#[test]
fn body_may_hold_any_bytes() {
    let mut input = b"PUT /b HTTP/1.1\r\ncontent-length: 4\r\n\r\n".to_vec();
    input.extend_from_slice(&[0xFF, 0x00, 0x0A, 0x80]);
    let (req, consumed) = parse_request(&input).expect("parses");
    assert_eq!(req.body, vec![0xFF, 0x00, 0x0A, 0x80]);
    assert_eq!(consumed, input.len());
}

#[test]
fn connect_has_no_body_whatever_the_headers_say() {
    let input = b"CONNECT example.com:443 HTTP/1.1\r\nContent-Length: 5\r\n\r\n\x16\x03\x01\x02\x00";
    let (req, consumed) = parse_request(input).expect("parses");
    assert_eq!(req.method, "CONNECT");
    assert_eq!(req.headers, vec![pair("content-length", "5")]);
    assert!(req.body.is_empty());
    assert_eq!(consumed, input.len() - 5);

    let (req, consumed) =
        parse_request(b"CONNECT example.com:443 HTTP/1.1\r\nContent-Length: 5\r\n\r\n").expect("parses");
    assert!(req.body.is_empty());
    assert_eq!(consumed, 55);

    // Only the method itself is CONNECT.
    let (req, _) = parse_request(b"connect / HTTP/1.1\r\nContent-Length: 2\r\n\r\nab").expect("parses");
    assert_eq!(req.body, b"ab".to_vec());

    let mut parser = RequestParser::new();
    assert_eq!(parser.advance(Event::Line("CONNECT h:1 HTTP/1.1\r\n".to_string())), read_line());
    assert_eq!(parser.advance(Event::Line("Content-Length: 9\r\n".to_string())), read_line());
    assert_eq!(parser.advance(Event::Line("\r\n".to_string())), Action::Done);
    assert_eq!(
        parser.finish(),
        Some(request("CONNECT", "h:1", vec![pair("content-length", "9")], b""))
    );
}

#[test]
fn body_length_depends_on_the_method() {
    let headers = vec![pair("content-length", "7")];
    assert_eq!(body_to_read("CONNECT", &headers), 0);
    assert_eq!(body_to_read("POST", &headers), 7);
    assert_eq!(body_to_read("GET", &vec![]), 0);
}

#[test]
fn invalid_content_length_counts_as_zero() {
    let input = b"POST /p HTTP/1.1\r\nContent-Length: many\r\n\r\nbody";
    let (req, consumed) = parse_request(input).expect("parses");
    assert_eq!(req.headers, vec![pair("content-length", "many")]);
    assert!(req.body.is_empty());
    assert_eq!(consumed, input.len() - 4);
}

#[test]
fn later_header_replaces_earlier_of_the_same_name() {
    let input = b"POST /p HTTP/1.1\r\nContent-Length: 3\r\nX: 1\r\ncontent-length: 2\r\n\r\nabcd";
    let (req, consumed) = parse_request(input).expect("parses");
    assert_eq!(req.headers, vec![pair("content-length", "2"), pair("x", "1")]);
    assert_eq!(req.body, b"ab".to_vec());
    assert_eq!(consumed, input.len() - 2);
}

#[test]
fn end_of_input_ends_the_headers() {
    let input = b"GET / HTTP/1.1\r\nHost: x";
    let (req, consumed) = parse_request(input).expect("parses");
    assert_eq!(req.headers, vec![pair("host", "x")]);
    assert_eq!(consumed, input.len());
    let (req, consumed) = parse_request(b"GET / HTTP/1.1").expect("parses");
    assert!(req.headers.is_empty());
    assert_eq!(consumed, 14);
}

#[test]
fn bare_line_feeds_end_lines_too() {
    let input = b"GET / HTTP/1.0\nHost: x\n\nrest";
    let (req, consumed) = parse_request(input).expect("parses");
    assert_eq!(req, request("GET", "/", vec![pair("host", "x")], b""));
    assert_eq!(consumed, input.len() - 4);
}

#[test]
fn malformed_request_line_is_a_bad_request() {
    assert_eq!(parse_request(b"GET /\r\n\r\n"), Err(ProxyError::BadRequest));
    assert_eq!(parse_request(b"GET / HTTP/1.1 x\r\n\r\n"), Err(ProxyError::BadRequest));
    assert_eq!(parse_request(b"\r\n"), Err(ProxyError::BadRequest));
    assert_eq!(parse_request(b""), Err(ProxyError::BadRequest));
}

#[test]
fn text_that_is_not_utf8_is_an_io_error() {
    assert_eq!(parse_request(b"GET /\xFF HTTP/1.1\r\n\r\n"), Err(ProxyError::Io));
    assert_eq!(parse_request(b"GET / HTTP/1.1\r\nX: \xC3\x28\r\n\r\n"), Err(ProxyError::Io));
}

#[test]
fn text_that_is_utf8_is_decoded() {
    let input = "GET /caf\u{E9} HTTP/1.1\r\nX-Name: J\u{FC}rgen\r\n\r\n".as_bytes();
    let (req, consumed) = parse_request(input).expect("parses");
    assert_eq!(req.target, "/caf\u{E9}");
    assert_eq!(req.headers, vec![pair("x-name", "J\u{FC}rgen")]);
    assert_eq!(consumed, input.len());
}

#[test]
fn short_body_is_an_io_error() {
    assert_eq!(
        parse_request(b"POST /p HTTP/1.1\r\nContent-Length: 10\r\n\r\nshort"),
        Err(ProxyError::Io)
    );
}

#[test]
fn parser_reads_a_head_line_by_line() {
    let mut parser = RequestParser::new();
    assert_eq!(parser.state(), ParseState::RequestLine);
    assert_eq!(parser.advance(Event::Line("POST /p HTTP/1.1\r\n".to_string())), read_line());
    assert_eq!(parser.state(), ParseState::Headers);
    assert_eq!(parser.advance(Event::Line("Host: example.com\r\n".to_string())), read_line());
    assert_eq!(parser.advance(Event::Line("Content-Length: 3\r\n".to_string())), read_line());
    assert_eq!(
        parser.advance(Event::Line("\r\n".to_string())),
        Action::Exchange { send: vec![], wait: Wait::Bytes(3) }
    );
    assert_eq!(parser.state(), ParseState::Body);
    assert_eq!(parser.advance(Event::Received(b"abc".to_vec())), Action::Done);
    assert_eq!(parser.state(), ParseState::Done);
    assert_eq!(
        parser.finish(),
        Some(request(
            "POST",
            "/p",
            vec![pair("host", "example.com"), pair("content-length", "3")],
            b"abc"
        ))
    );
}

#[test]
fn parser_is_done_at_the_blank_line_without_a_body() {
    let mut parser = RequestParser::new();
    assert_eq!(parser.advance(Event::Line("GET / HTTP/1.1\r\n".to_string())), read_line());
    assert_eq!(parser.advance(Event::Line("".to_string())), Action::Done);
    assert_eq!(parser.advance(Event::Line("more\r\n".to_string())), Action::Done);
    assert_eq!(parser.finish(), Some(request("GET", "/", vec![], b"")));
}

#[test]
fn parser_fails_on_timeouts_and_errors() {
    let mut parser = RequestParser::new();
    assert_eq!(parser.advance(Event::TimedOut), Action::Fail(ProxyError::Timeout));
    assert_eq!(parser.state(), ParseState::Failed(ProxyError::Timeout));
    assert_eq!(
        parser.advance(Event::Line("GET / HTTP/1.1\r\n".to_string())),
        Action::Fail(ProxyError::Timeout)
    );
    assert_eq!(parser.finish(), None);

    let mut parser = RequestParser::new();
    assert_eq!(parser.advance(Event::Line("GET / HTTP/1.1\r\n".to_string())), read_line());
    assert_eq!(parser.advance(Event::IoFailed), Action::Fail(ProxyError::Io));

    let mut parser = RequestParser::new();
    assert_eq!(
        parser.advance(Event::Line("nonsense\r\n".to_string())),
        Action::Fail(ProxyError::BadRequest)
    );

    let mut parser = RequestParser::new();
    assert_eq!(parser.advance(Event::Received(vec![1])), Action::Fail(ProxyError::Io));

    let mut parser = RequestParser::new();
    assert_eq!(parser.advance(Event::Connected), Action::Fail(ProxyError::Io));

    let mut parser = RequestParser::new();
    assert_eq!(parser.advance(Event::Line("GET / HTTP/1.1\r\n".to_string())), read_line());
    assert_eq!(parser.advance(Event::Cancelled), Action::Fail(ProxyError::Cancelled));
    assert_eq!(parser.state(), ParseState::Failed(ProxyError::Cancelled));
}

#[test]
fn parser_wants_the_whole_body() {
    let mut parser = RequestParser::new();
    parser.advance(Event::Line("POST / HTTP/1.1\r\n".to_string()));
    parser.advance(Event::Line("content-length: 4\r\n".to_string()));
    parser.advance(Event::Line("\r\n".to_string()));
    assert_eq!(parser.advance(Event::Received(b"abc".to_vec())), Action::Fail(ProxyError::Io));
    assert_eq!(parser.finish(), None);
}

#[test]
fn connect_target_is_split_at_the_last_colon() {
    assert_eq!(
        handle_connect(&request("CONNECT", "example.com:443", vec![], b"")),
        Ok(("example.com".to_string(), 443))
    );
    assert_eq!(
        handle_connect(&request("CONNECT", "[::1]:8443", vec![], b"")),
        Ok(("[::1]".to_string(), 8443))
    );
    assert_eq!(
        handle_connect(&request("CONNECT", ":80", vec![], b"")),
        Ok(("".to_string(), 80))
    );
}

#[test]
fn connect_without_a_port_is_answered_with_400() {
    for target in ["example.com", "example.com:", "example.com:http", "example.com:65536", "example.com:-1", "example.com: 80", ""] {
        assert_eq!(
            handle_connect(&request("CONNECT", target, vec![], b"")),
            Err(ClientReply::BadRequest)
        );
    }
}

#[test]
fn other_methods_are_answered_with_405() {
    assert_eq!(
        handle_connect(&request("GET", "example.com:443", vec![], b"")),
        Err(ClientReply::MethodNotAllowed)
    );
    assert_eq!(
        handle_connect(&request("connect", "example.com:443", vec![], b"")),
        Err(ClientReply::MethodNotAllowed)
    );
}

#[test]
fn replies_are_status_lines() {
    assert_eq!(ClientReply::ConnectionEstablished.text(), "HTTP/1.1 200 Connection Established\r\n\r\n");
    assert_eq!(ClientReply::BadRequest.text(), "HTTP/1.1 400 Bad Request\r\n\r\n");
    assert_eq!(ClientReply::MethodNotAllowed.text(), "HTTP/1.1 405 Method Not Allowed\r\n\r\n");
    assert_eq!(ClientReply::ServerError.text(), "HTTP/1.1 500 Internal Server Error\r\n\r\n");
    assert_eq!(ClientReply::ConnectionEstablished.status(), 200);
    assert_eq!(ClientReply::BadRequest.status(), 400);
    assert_eq!(ClientReply::MethodNotAllowed.status(), 405);
    assert_eq!(ClientReply::ServerError.status(), 500);
}

#[test]
fn request_lookups() {
    let req = request("GET", "/", vec![pair("host", "a"), pair("x", "")], b"");
    assert_eq!(req.header("host"), Some(&"a".to_string()));
    assert_eq!(req.header("x"), Some(&"".to_string()));
    assert_eq!(req.header("Host"), None);
    assert!(req.has_header("x"));
    assert!(!req.has_header("y"));
    assert_eq!(req.clone(), req);
}
