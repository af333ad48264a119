use proxy_twister::error::ProxyError;
use proxy_twister::protocols::socks::{
    forward_to_proxy, Socks5Client, Socks5Request, Socks5State, CONNECT_COMMAND, DOMAIN_TYPE,
    IPV4_TYPE, IPV6_TYPE, NO_AUTHENTICATION, READ_TIMEOUT_SECS, SOCKS_VERSION, SUCCESS_REPLY,
};
use proxy_twister::protocols::{Action, Event, Wait};

fn wanted(target: &str, port: u16) -> Socks5Request {
    Socks5Request { target: target.to_string(), port }
}

fn read(n: usize) -> Action {
    Action::Exchange { send: vec![], wait: Wait::Bytes(n) }
}

fn fail(e: ProxyError) -> (Socks5State, Action) {
    (Socks5State::Failed(e), Action::Fail(e))
}

#[test]
fn constants_are_those_of_the_protocol() {
    assert_eq!(SOCKS_VERSION, 5);
    assert_eq!(NO_AUTHENTICATION, 0);
    assert_eq!(CONNECT_COMMAND, 1);
    assert_eq!(IPV4_TYPE, 1);
    assert_eq!(DOMAIN_TYPE, 3);
    assert_eq!(IPV6_TYPE, 4);
    assert_eq!(SUCCESS_REPLY, 0);
    assert_eq!(READ_TIMEOUT_SECS, 10);
}

#[test]
fn socks5_success_with_domain() {
    let target = "example.test";
    assert_eq!(target.len(), 12);
    let mut client = Socks5Client::start(&wanted(target, 443)).expect("fits");
    assert_eq!(client.current(), Socks5State::Dial);
    assert_eq!(
        client.advance(&Event::Connected),
        Action::Exchange { send: vec![0x05, 0x01, 0x00], wait: Wait::Bytes(2) }
    );
    assert_eq!(client.current(), Socks5State::Greet);
    let mut request = vec![0x05, 0x01, 0x00, 0x03, 0x0C];
    request.extend_from_slice(target.as_bytes());
    request.extend_from_slice(&[0x01, 0xBB]);
    assert_eq!(
        client.advance(&Event::Received(vec![0x05, 0x00])),
        Action::Exchange { send: request, wait: Wait::Bytes(4) }
    );
    assert_eq!(client.current(), Socks5State::ReplyHead);
    assert_eq!(client.advance(&Event::Received(vec![0x05, 0x00, 0x00, 0x01])), read(6));
    assert_eq!(client.current(), Socks5State::ReplyAddr(6));
    assert_eq!(client.advance(&Event::Received(vec![127, 0, 0, 1, 0x1F, 0x90])), Action::Done);
    assert_eq!(client.current(), Socks5State::Ready);
    assert_eq!(client.advance(&Event::TimedOut), Action::Done);
}

#[test]
fn request_is_encoded_with_length_and_big_endian_port() {
    assert_eq!(
        wanted("a.b", 80).encode(),
        Ok(vec![0x05, 0x01, 0x00, 0x03, 0x03, b'a', b'.', b'b', 0x00, 0x50])
    );
    assert_eq!(wanted("", 65535).encode(), Ok(vec![0x05, 0x01, 0x00, 0x03, 0x00, 0xFF, 0xFF]));
    assert_eq!(
        wanted("é", 256).encode(),
        Ok(vec![0x05, 0x01, 0x00, 0x03, 0x02, 0xC3, 0xA9, 0x01, 0x00])
    );
}

#[test]
fn host_names_over_255_bytes_are_refused() {
    let long = "a".repeat(256);
    assert_eq!(wanted(&long, 80).encode(), Err(ProxyError::BadRequest));
    assert!(matches!(Socks5Client::start(&wanted(&long, 80)), Err(ProxyError::BadRequest)));
    let fits = "a".repeat(255);
    let bytes = wanted(&fits, 80).encode().expect("fits");
    assert_eq!(bytes.len(), 5 + 255 + 2);
    assert_eq!(bytes[4], 255);
    let wide = "é".repeat(128);
    assert_eq!(wanted(&wide, 80).encode(), Err(ProxyError::BadRequest));
}

#[test]
fn any_other_method_reply_is_an_auth_rejection() {
    for reply in [vec![0x05, 0xFF], vec![0x05, 0x02], vec![0x04, 0x00], vec![0x05], vec![], vec![0x05, 0x00, 0x00]] {
        assert_eq!(
            forward_to_proxy(Socks5State::Greet, &Event::Received(reply), b"req"),
            fail(ProxyError::ProxyAuthRejected)
        );
    }
}

#[test]
fn refusal_carries_the_reply_code() {
    for rep in [1u8, 2, 3, 4, 5, 6, 7, 8, 0xFF] {
        assert_eq!(
            forward_to_proxy(Socks5State::ReplyHead, &Event::Received(vec![5, rep, 0, 1]), b""),
            fail(ProxyError::ProxyConnectRejected(rep as u16))
        );
        assert_eq!(
            forward_to_proxy(Socks5State::ReplyHead, &Event::Received(vec![5, rep, 0, 9]), b""),
            fail(ProxyError::ProxyConnectRejected(rep as u16))
        );
    }
}

#[test]
fn bound_address_is_consumed_by_type() {
    assert_eq!(
        forward_to_proxy(Socks5State::ReplyHead, &Event::Received(vec![5, 0, 0, 1]), b""),
        (Socks5State::ReplyAddr(6), read(6))
    );
    assert_eq!(
        forward_to_proxy(Socks5State::ReplyHead, &Event::Received(vec![5, 0, 0, 4]), b""),
        (Socks5State::ReplyAddr(18), read(18))
    );
    assert_eq!(
        forward_to_proxy(Socks5State::ReplyHead, &Event::Received(vec![5, 0, 0, 3]), b""),
        (Socks5State::ReplyDomainLen, read(1))
    );
    assert_eq!(
        forward_to_proxy(Socks5State::ReplyDomainLen, &Event::Received(vec![11]), b""),
        (Socks5State::ReplyAddr(13), read(13))
    );
    assert_eq!(
        forward_to_proxy(Socks5State::ReplyDomainLen, &Event::Received(vec![0]), b""),
        (Socks5State::ReplyAddr(2), read(2))
    );
    assert_eq!(
        forward_to_proxy(Socks5State::ReplyDomainLen, &Event::Received(vec![255]), b""),
        (Socks5State::ReplyAddr(257), read(257))
    );
    assert_eq!(
        forward_to_proxy(Socks5State::ReplyAddr(13), &Event::Received(vec![0; 13]), b""),
        (Socks5State::Ready, Action::Done)
    );
}

#[test]
fn unknown_address_type_is_a_protocol_error() {
    for atyp in [0u8, 2, 5, 0xFF] {
        assert_eq!(
            forward_to_proxy(Socks5State::ReplyHead, &Event::Received(vec![5, 0, 0, atyp]), b""),
            fail(ProxyError::ProxyProtocol)
        );
    }
}

#[test]
fn sizes_are_strict() {
    assert_eq!(
        forward_to_proxy(Socks5State::ReplyHead, &Event::Received(vec![5, 0, 0]), b""),
        fail(ProxyError::ProxyProtocol)
    );
    assert_eq!(
        forward_to_proxy(Socks5State::ReplyHead, &Event::Received(vec![5, 0, 0, 1, 0]), b""),
        fail(ProxyError::ProxyProtocol)
    );
    assert_eq!(
        forward_to_proxy(Socks5State::ReplyDomainLen, &Event::Received(vec![1, 2]), b""),
        fail(ProxyError::ProxyProtocol)
    );
    assert_eq!(
        forward_to_proxy(Socks5State::ReplyAddr(6), &Event::Received(vec![0; 5]), b""),
        fail(ProxyError::ProxyProtocol)
    );
    assert_eq!(
        forward_to_proxy(Socks5State::ReplyAddr(6), &Event::Received(vec![0; 7]), b""),
        fail(ProxyError::ProxyProtocol)
    );
}

#[test]
fn timeouts_and_errors_end_the_handshake() {
    for state in [
        Socks5State::Dial,
        Socks5State::Greet,
        Socks5State::ReplyHead,
        Socks5State::ReplyDomainLen,
        Socks5State::ReplyAddr(6),
    ] {
        assert_eq!(forward_to_proxy(state, &Event::TimedOut, b""), fail(ProxyError::Timeout));
        assert_eq!(forward_to_proxy(state, &Event::IoFailed, b""), fail(ProxyError::Io));
        assert_eq!(forward_to_proxy(state, &Event::Cancelled, b""), fail(ProxyError::Cancelled));
        assert_eq!(
            forward_to_proxy(state, &Event::Line("x".to_string()), b""),
            fail(ProxyError::ProxyProtocol)
        );
    }
    assert_eq!(
        forward_to_proxy(Socks5State::Greet, &Event::Connected, b""),
        fail(ProxyError::ProxyProtocol)
    );
    assert_eq!(
        forward_to_proxy(Socks5State::Dial, &Event::Received(vec![5, 0]), b""),
        fail(ProxyError::ProxyProtocol)
    );
}

#[test]
fn outcome_is_final() {
    assert_eq!(
        forward_to_proxy(Socks5State::Ready, &Event::IoFailed, b""),
        (Socks5State::Ready, Action::Done)
    );
    assert_eq!(
        forward_to_proxy(Socks5State::Ready, &Event::Cancelled, b""),
        (Socks5State::Ready, Action::Done)
    );
    assert_eq!(
        forward_to_proxy(Socks5State::Failed(ProxyError::Timeout), &Event::Connected, b""),
        fail(ProxyError::Timeout)
    );
}
