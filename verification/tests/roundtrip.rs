use proxy_twister::protocols::http::{
    connect_request, handle_connect, parse_request, plain_request, HttpRequest, RequestParser,
};
use proxy_twister::protocols::{Action, Event, Wait};

fn pair(a: &str, b: &str) -> (String, String) {
    (a.to_string(), b.to_string())
}

fn request(method: &str, target: &str, headers: Vec<(String, String)>, body: &[u8]) -> HttpRequest {
    HttpRequest {
        method: method.to_string(),
        target: target.to_string(),
        headers,
        body: body.to_vec(),
    }
}

fn plain_heads() -> Vec<HttpRequest> {
    vec![
        request("GET", "/", vec![], b""),
        request("GET", "http://example.com/x", vec![pair("host", "example.com")], b""),
        request(
            "POST",
            "/submit?a=b",
            vec![pair("host", "example.com:8080"), pair("content-length", "5"), pair("x-empty", "")],
            b"hello",
        ),
        request("PUT", "/bin", vec![pair("content-length", "3")], &[0xFF, 0x0A, 0x00]),
        request("CONNECT", "example.com:443", vec![pair("host", "example.com:443")], b""),
        request("GET", "/caf\u{E9}", vec![pair("x-name", "J\u{FC}rgen M\u{FC}ller"), pair("", "odd")], b""),
        request("DELETE", "/d", vec![pair("content-length", "0"), pair("a", "b: c")], b""),
    ]
}

#[test]
fn plain_request_parses_back() {
    for head in plain_heads() {
        let written = plain_request(&head);
        let (read, consumed) = parse_request(&written).expect("parses");
        assert_eq!(read, head);
        assert_eq!(consumed, written.len());
        assert_eq!(plain_request(&read), written);

        let mut longer = written.clone();
        longer.extend_from_slice(b"GET /next HTTP/1.1\r\n\r\n");
        let (read, consumed) = parse_request(&longer).expect("parses");
        assert_eq!(read, head);
        assert_eq!(consumed, written.len());
    }
}

#[test]
fn plain_head_reads_back_line_by_line() {
    for head in plain_heads() {
        let written = plain_request(&head);
        let text_len = written.len() - head.body.len();
        let text = String::from_utf8(written[..text_len].to_vec()).expect("utf-8");
        let mut parser = RequestParser::new();
        let mut action = Action::Exchange { send: vec![], wait: Wait::Line };
        let mut taken = 0;
        for line in text.split_inclusive('\n') {
            assert_eq!(action, Action::Exchange { send: vec![], wait: Wait::Line });
            taken += line.len();
            action = parser.advance(Event::Line(line.to_string()));
        }
        if !head.body.is_empty() {
            assert_eq!(action, Action::Exchange { send: vec![], wait: Wait::Bytes(head.body.len()) });
            taken += head.body.len();
            action = parser.advance(Event::Received(head.body.clone()));
        }
        assert_eq!(action, Action::Done);
        assert_eq!(taken, written.len());
        assert_eq!(parser.finish(), Some(head));
    }
}

#[test]
fn heads_that_are_not_plain_change_length() {
    let input = b"GET  / HTTP/1.1\r\n\r\n";
    let (read, consumed) = parse_request(input).expect("parses");
    assert_eq!(consumed, 19);
    let written = plain_request(&read);
    assert_eq!(written, b"GET / HTTP/1.1\r\n\r\n".to_vec());
    assert_eq!(written.len(), 18);

    let input = b"GET / HTTP/1.1\r\nHost:x\r\nnot a header\r\n\r\n";
    let (read, consumed) = parse_request(input).expect("parses");
    assert_eq!(consumed, input.len());
    let written = plain_request(&read);
    assert_eq!(written, b"GET / HTTP/1.1\r\nhost: x\r\n\r\n".to_vec());
    assert_ne!(written.len(), consumed);
}

#[test]
fn header_name_casing_does_not_change_length() {
    let input = b"GET / HTTP/1.1\r\nHost: x\r\nX-Custom-Header: v\r\n\r\n";
    let (read, consumed) = parse_request(input).expect("parses");
    let written = plain_request(&read);
    assert_eq!(written, b"GET / HTTP/1.1\r\nhost: x\r\nx-custom-header: v\r\n\r\n".to_vec());
    assert_eq!(written.len(), consumed);
}

#[test]
fn connect_target_reads_back() {
    for (host, port) in [("example.com", 443u16), ("[::1]", 8443), ("a:b", 0), ("", 65535), ("h", 7)] {
        let written = connect_request(host, port, None);
        let (read, consumed) = parse_request(&written).expect("parses");
        assert_eq!(consumed, written.len());
        assert_eq!(read.method, "CONNECT");
        assert_eq!(handle_connect(&read), Ok((host.to_string(), port)));
    }
}

#[test]
fn any_version_token_of_the_usual_length_keeps_the_length() {
    for version in ["HTTP/1.0", "HTTP/1.1", "HTTP/2.0", "ICY/1.00"] {
        let input = format!("GET /x {}\r\nHost: a\r\nAccept: */*\r\n\r\n", version).into_bytes();
        let (read, consumed) = parse_request(&input).expect("parses");
        assert_eq!(consumed, input.len());
        assert_eq!(read, request("GET", "/x", vec![pair("host", "a"), pair("accept", "*/*")], b""));
        assert_eq!(plain_request(&read).len(), consumed);
    }
    let input = b"GET /x HTTP/2\r\nHost: a\r\n\r\n";
    let (read, consumed) = parse_request(input).expect("parses");
    assert_eq!(plain_request(&read).len(), consumed + 2);
}
