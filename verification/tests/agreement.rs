use proxy_twister::error::ProxyError;
use proxy_twister::protocols::http::{parse_request, HttpRequest, ParseState, RequestParser};
use proxy_twister::protocols::{Action, Event, Wait};

/// Feeds the parser from `input` as a reader would: line by line, then the body.
fn feed(input: &[u8]) -> Result<(HttpRequest, usize), ProxyError> {
    let mut parser = RequestParser::new();
    let mut action = Action::Exchange { send: vec![], wait: Wait::Line };
    let mut at = 0;
    loop {
        let event = match action {
            Action::Done => return Ok((parser.finish().expect("done"), at)),
            Action::Fail(e) => {
                assert_eq!(parser.state(), ParseState::Failed(e));
                return Err(e);
            }
            Action::Exchange { wait: Wait::Line, .. } => {
                let rest = &input[at..];
                let n = rest.iter().position(|b| *b == b'\n').map(|i| i + 1).unwrap_or(rest.len());
                match std::str::from_utf8(&rest[..n]) {
                    Ok(line) => {
                        at += n;
                        Event::Line(line.to_string())
                    }
                    Err(_) => Event::IoFailed,
                }
            }
            Action::Exchange { wait: Wait::Bytes(n), .. } => {
                if input.len() - at >= n {
                    at += n;
                    Event::Received(input[at - n..at].to_vec())
                } else {
                    Event::IoFailed
                }
            }
        };
        action = parser.advance(event);
    }
}

#[test]
fn parser_agrees_with_parse_request() {
    let inputs: Vec<&[u8]> = vec![
        b"GET / HTTP/1.1\r\n\r\n",
        b"GET / HTTP/1.1\r\nHost: x\r\nAccept: */*\r\n\r\nleft over",
        b"POST /p HTTP/1.1\r\nContent-Length: 5\r\n\r\nhello world",
        b"POST /p HTTP/1.1\r\nContent-Length: 5\r\n\r\nhell",
        b"POST /p HTTP/1.1\r\nContent-Length: nope\r\n\r\nhello",
        b"POST /p HTTP/1.1\r\nContent-Length: 2\r\ncontent-length: 3\r\n\r\nabcdef",
        b"GET / HTTP/1.1\r\nHost: x",
        b"GET / HTTP/1.1\r\nContent-Length: 3",
        b"GET / HTTP/1.1",
        b"GET /\r\n\r\n",
        b"",
        b"\n",
        b"GET /\xFF HTTP/1.1\r\n\r\n",
        b"GET / HTTP/1.1\r\nX: \xC3\x28\r\n\r\n",
        b"GET / HTTP/1.0\nA:1\n \t\nrest",
        b"CONNECT example.com:443 HTTP/1.1\r\nHost: example.com:443\r\n\r\n\x16\x03\x01",
        b"CONNECT example.com:443 HTTP/1.1\r\nContent-Length: 3\r\n\r\n\x16\x03\x01",
        b"CONNECT example.com:443 HTTP/1.1\r\nContent-Length: 30\r\n\r\n\x16",
    ];
    for input in inputs {
        assert_eq!(feed(input), parse_request(input));
    }
}
