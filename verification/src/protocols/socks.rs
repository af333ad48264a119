//! SOCKS5 client (RFC 1928): CONNECT, no authentication, the target given
//! as a domain name.

use crate::error::ProxyError;
use crate::protocols::{copy_bytes, Action, ActionView, Event, EventView, Wait};
use vstd::prelude::*;
use vstd::string::*;
use vstd::utf8::encode_utf8;

verus! {

/// Protocol constants.
pub const SOCKS_VERSION: u8 = 0x05;

pub const NO_AUTHENTICATION: u8 = 0x00;

pub const CONNECT_COMMAND: u8 = 0x01;

pub const IPV4_TYPE: u8 = 0x01;

pub const DOMAIN_TYPE: u8 = 0x03;

pub const IPV6_TYPE: u8 = 0x04;

pub const SUCCESS_REPLY: u8 = 0x00;

/// Seconds allowed for each read of the handshake.
pub const READ_TIMEOUT_SECS: u64 = 10;

/// The target that the upstream proxy is asked to connect to.
#[derive(Debug, PartialEq, Eq)]
pub struct Socks5Request {
    pub target: String,
    pub port: u16,
}

/// The method offer: version 5, one method, "no authentication".
pub open spec fn greeting_bytes() -> Seq<u8> {
    seq![SOCKS_VERSION, 1u8, NO_AUTHENTICATION]
}

/// The only method reply that is accepted.
pub open spec fn accepted_method_reply() -> Seq<u8> {
    seq![SOCKS_VERSION, NO_AUTHENTICATION]
}

/// The CONNECT request for a domain of at most 255 bytes: version, command,
/// reserved, address type, length, the domain, and the port in network byte
/// order.
pub open spec fn connect_request_bytes(domain: Seq<u8>, port: u16) -> Seq<u8> {
    seq![SOCKS_VERSION, CONNECT_COMMAND, 0u8, DOMAIN_TYPE, domain.len() as u8] + domain + seq![
        (port / 256) as u8,
        (port % 256) as u8,
    ]
}

/// Where the handshake stands.
#[derive(Clone, Copy, Debug, PartialEq, Eq, Structural)]
pub enum Socks5State {
    /// Waiting for the TCP connection to the proxy.
    Dial,
    /// The method offer is out; waiting for the two-byte method reply.
    Greet,
    /// The request is out; waiting for the four-byte head of the reply.
    ReplyHead,
    /// Waiting for the length byte of a bound domain name.
    ReplyDomainLen,
    /// Waiting for the rest of the bound address: this many bytes.
    ReplyAddr(usize),
    /// The tunnel is open.
    Ready,
    /// The handshake has failed.
    Failed(ProxyError),
}

pub open spec fn failed(e: ProxyError) -> (Socks5State, ActionView) {
    (Socks5State::Failed(e), ActionView::Fail(e))
}

/// What follows the four-byte reply head `VER REP RSV ATYP`.
pub open spec fn after_reply_head(head: Seq<u8>) -> (Socks5State, ActionView) {
    if head.len() != 4 {
        failed(ProxyError::ProxyProtocol)
    } else if head[1] != SUCCESS_REPLY {
        failed(ProxyError::ProxyConnectRejected(head[1] as u16))
    } else if head[3] == IPV4_TYPE {
        (Socks5State::ReplyAddr(6), ActionView::Exchange { send: seq![], wait: Wait::Bytes(6) })
    } else if head[3] == IPV6_TYPE {
        (Socks5State::ReplyAddr(18), ActionView::Exchange { send: seq![], wait: Wait::Bytes(18) })
    } else if head[3] == DOMAIN_TYPE {
        (Socks5State::ReplyDomainLen, ActionView::Exchange { send: seq![], wait: Wait::Bytes(1) })
    } else {
        failed(ProxyError::ProxyProtocol)
    }
}

/// The whole client: the state that follows `state` on `event`, and what to
/// do then. `request` is the CONNECT request that goes out once the proxy has
/// accepted the method offer.
pub open spec fn socks5_transition(state: Socks5State, event: EventView, request: Seq<u8>) -> (
    Socks5State,
    ActionView,
) {
    match state {
        Socks5State::Ready => (Socks5State::Ready, ActionView::Done),
        Socks5State::Failed(e) => failed(e),
        _ => match event {
            EventView::TimedOut => failed(ProxyError::Timeout),
            EventView::IoFailed => failed(ProxyError::Io),
            EventView::Cancelled => failed(ProxyError::Cancelled),
            EventView::Line(_) => failed(ProxyError::ProxyProtocol),
            EventView::Connected => if state == Socks5State::Dial {
                (
                    Socks5State::Greet,
                    ActionView::Exchange { send: greeting_bytes(), wait: Wait::Bytes(2) },
                )
            } else {
                failed(ProxyError::ProxyProtocol)
            },
            EventView::Received(bytes) => match state {
                Socks5State::Greet => if bytes == accepted_method_reply() {
                    (
                        Socks5State::ReplyHead,
                        ActionView::Exchange { send: request, wait: Wait::Bytes(4) },
                    )
                } else {
                    failed(ProxyError::ProxyAuthRejected)
                },
                Socks5State::ReplyHead => after_reply_head(bytes),
                Socks5State::ReplyDomainLen => if bytes.len() == 1 {
                    (
                        Socks5State::ReplyAddr((bytes[0] + 2) as usize),
                        ActionView::Exchange {
                            send: seq![],
                            wait: Wait::Bytes((bytes[0] + 2) as usize),
                        },
                    )
                } else {
                    failed(ProxyError::ProxyProtocol)
                },
                Socks5State::ReplyAddr(n) => if bytes.len() == n {
                    (Socks5State::Ready, ActionView::Done)
                } else {
                    failed(ProxyError::ProxyProtocol)
                },
                _ => failed(ProxyError::ProxyProtocol),
            },
        },
    }
}

impl Socks5Request {
    /// The bytes of the CONNECT request for this target, or `BadRequest` for
    /// a host name that does not fit the one-byte length field.
    pub fn encode(&self) -> (r: Result<Vec<u8>, ProxyError>)
        ensures
            match r {
                Ok(bytes) => encode_utf8(self.target@).len() <= 255 && bytes@
                    == connect_request_bytes(encode_utf8(self.target@), self.port),
                Err(e) => encode_utf8(self.target@).len() > 255 && e == ProxyError::BadRequest,
            },
    {
        let domain = self.target.as_str().as_bytes();
        if domain.len() > 255 {
            return Err(ProxyError::BadRequest);
        }
        let mut out: Vec<u8> = Vec::new();
        out.push(SOCKS_VERSION);
        out.push(CONNECT_COMMAND);
        out.push(0);
        out.push(DOMAIN_TYPE);
        out.push(domain.len() as u8);
        let ghost head = out@;
        let mut i: usize = 0;
        while i < domain.len()
            invariant
                i <= domain.len(),
                out@ == head + domain@.take(i as int),
            decreases domain.len() - i,
        {
            out.push(domain[i]);
            i += 1;
        }
        assert(domain@.take(domain.len() as int) == domain@);
        out.push((self.port / 256) as u8);
        out.push((self.port % 256) as u8);
        assert(out@ == connect_request_bytes(domain@, self.port));
        Ok(out)
    }
}

/// A SOCKS5 handshake in progress.
pub struct Socks5Client {
    state: Socks5State,
    request: Vec<u8>,
}

impl Socks5Client {
    pub closed spec fn state(&self) -> Socks5State {
        self.state
    }

    /// The CONNECT request that this handshake sends.
    pub closed spec fn request(&self) -> Seq<u8> {
        self.request@
    }

    /// Prepares the handshake for `request`; nothing has been sent yet and
    /// the connection to the proxy is still to be opened.
    pub fn start(request: &Socks5Request) -> (r: Result<Socks5Client, ProxyError>)
        ensures
            match r {
                Ok(client) => encode_utf8(request.target@).len() <= 255 && client.state()
                    == Socks5State::Dial && client.request() == connect_request_bytes(
                    encode_utf8(request.target@),
                    request.port,
                ),
                Err(e) => encode_utf8(request.target@).len() > 255 && e == ProxyError::BadRequest,
            },
    {
        match request.encode() {
            Ok(bytes) => Ok(Socks5Client { state: Socks5State::Dial, request: bytes }),
            Err(e) => Err(e),
        }
    }

    pub fn current(&self) -> (state: Socks5State)
        ensures
            state == self.state(),
    {
        self.state
    }

    /// Takes note of `event` and says what to do next.
    pub fn advance(&mut self, event: &Event) -> (action: Action)
        ensures
            (final(self).state(), action@) == socks5_transition(
                old(self).state(),
                event@,
                old(self).request(),
            ),
            final(self).request() == old(self).request(),
    {
        let (next, action) = forward_to_proxy(self.state, event, self.request.as_slice());
        self.state = next;
        action
    }
}

fn fail(e: ProxyError) -> (r: (Socks5State, Action))
    ensures
        (r.0, r.1@) == failed(e),
{
    (Socks5State::Failed(e), Action::Fail(e))
}

fn read_more(state: Socks5State, n: usize) -> (r: (Socks5State, Action))
    ensures
        r.0 == state,
        r.1@ == (ActionView::Exchange { send: seq![], wait: Wait::Bytes(n) }),
{
    (state, Action::Exchange { send: Vec::new(), wait: Wait::Bytes(n) })
}

/// One step of the client on plain values.
pub fn forward_to_proxy(state: Socks5State, event: &Event, request: &[u8]) -> (r: (Socks5State, Action))
    ensures
        (r.0, r.1@) == socks5_transition(state, event@, request@),
{
    match state {
        Socks5State::Ready => { return (Socks5State::Ready, Action::Done); },
        Socks5State::Failed(e) => { return fail(e); },
        _ => {},
    }
    match event {
        Event::TimedOut => fail(ProxyError::Timeout),
        Event::IoFailed => fail(ProxyError::Io),
        Event::Cancelled => fail(ProxyError::Cancelled),
        Event::Line(_) => fail(ProxyError::ProxyProtocol),
        Event::Connected => match state {
            Socks5State::Dial => {
                let mut send: Vec<u8> = Vec::new();
                send.push(SOCKS_VERSION);
                send.push(1);
                send.push(NO_AUTHENTICATION);
                assert(send@ == greeting_bytes());
                (Socks5State::Greet, Action::Exchange { send, wait: Wait::Bytes(2) })
            },
            _ => fail(ProxyError::ProxyProtocol),
        },
        Event::Received(bytes) => match state {
            Socks5State::Greet => {
                if bytes.len() == 2 && bytes[0] == SOCKS_VERSION && bytes[1] == NO_AUTHENTICATION {
                    assert(bytes@ == accepted_method_reply());
                    (
                        Socks5State::ReplyHead,
                        Action::Exchange { send: copy_bytes(request), wait: Wait::Bytes(4) },
                    )
                } else {
                    assert(bytes@ != accepted_method_reply()) by {
                        if bytes@ == accepted_method_reply() {
                            assert(bytes@.len() == 2);
                            assert(bytes@[0] == SOCKS_VERSION);
                            assert(bytes@[1] == NO_AUTHENTICATION);
                        }
                    }
                    fail(ProxyError::ProxyAuthRejected)
                }
            },
            Socks5State::ReplyHead => {
                if bytes.len() != 4 {
                    fail(ProxyError::ProxyProtocol)
                } else if bytes[1] != SUCCESS_REPLY {
                    fail(ProxyError::ProxyConnectRejected(bytes[1] as u16))
                } else if bytes[3] == IPV4_TYPE {
                    read_more(Socks5State::ReplyAddr(6), 6)
                } else if bytes[3] == IPV6_TYPE {
                    read_more(Socks5State::ReplyAddr(18), 18)
                } else if bytes[3] == DOMAIN_TYPE {
                    read_more(Socks5State::ReplyDomainLen, 1)
                } else {
                    fail(ProxyError::ProxyProtocol)
                }
            },
            Socks5State::ReplyDomainLen => {
                if bytes.len() == 1 {
                    let n: usize = bytes[0] as usize + 2;
                    read_more(Socks5State::ReplyAddr(n), n)
                } else {
                    fail(ProxyError::ProxyProtocol)
                }
            },
            Socks5State::ReplyAddr(n) => {
                if bytes.len() == n {
                    (Socks5State::Ready, Action::Done)
                } else {
                    fail(ProxyError::ProxyProtocol)
                }
            },
            _ => fail(ProxyError::ProxyProtocol),
        },
    }
}

/// The tunnel opens in one way only: the last bytes of the bound address
/// arrive, in full, while the client waits for them.
pub proof fn lemma_ready_needs_bound_address(
    state: Socks5State,
    event: EventView,
    request: Seq<u8>,
)
    requires
        state != Socks5State::Ready,
        socks5_transition(state, event, request).0 == Socks5State::Ready,
    ensures
        state matches Socks5State::ReplyAddr(n) && event matches EventView::Received(bytes)
            && bytes.len() == n,
{
}

/// The CONNECT request leaves only in answer to the method reply `05 00`;
/// every other answer to the offer ends the handshake with
/// `ProxyAuthRejected`.
pub proof fn lemma_request_follows_accepted_offer(reply: Seq<u8>, request: Seq<u8>)
    ensures
        reply == accepted_method_reply() ==> socks5_transition(
            Socks5State::Greet,
            EventView::Received(reply),
            request,
        ) == (
            Socks5State::ReplyHead,
            ActionView::Exchange { send: request, wait: Wait::Bytes(4) },
        ),
        reply != accepted_method_reply() ==> socks5_transition(
            Socks5State::Greet,
            EventView::Received(reply),
            request,
        ) == failed(ProxyError::ProxyAuthRejected),
{
}

/// A reply code other than success ends the handshake with that code,
/// whatever the rest of the reply head says.
pub proof fn lemma_refusal_carries_reply_code(head: Seq<u8>, request: Seq<u8>)
    requires
        head.len() == 4,
        head[1] != SUCCESS_REPLY,
    ensures
        socks5_transition(Socks5State::ReplyHead, EventView::Received(head), request) == failed(
            ProxyError::ProxyConnectRejected(head[1] as u16),
        ),
{
}

/// Once the handshake has ended, nothing that happens changes its outcome.
pub proof fn lemma_outcome_is_final(state: Socks5State, event: EventView, request: Seq<u8>)
    requires
        state == Socks5State::Ready || state is Failed,
    ensures
        socks5_transition(state, event, request).0 == state,
{
}

/// The state after a run of events.
pub open spec fn socks5_after(state: Socks5State, events: Seq<EventView>, request: Seq<u8>) -> Socks5State
    decreases events.len(),
{
    if events.len() == 0 {
        state
    } else {
        socks5_after(socks5_transition(state, events[0], request).0, events.drop_first(), request)
    }
}

/// A reply head that says success and names a kind of address that the
/// client can skip.
pub open spec fn grants(head: Seq<u8>) -> bool {
    &&& head.len() == 4
    &&& head[1] == SUCCESS_REPLY
    &&& (head[3] == IPV4_TYPE || head[3] == IPV6_TYPE || head[3] == DOMAIN_TYPE)
}

proof fn lemma_failure_stays(e: ProxyError, events: Seq<EventView>, request: Seq<u8>)
    ensures
        socks5_after(Socks5State::Failed(e), events, request) == Socks5State::Failed(e),
    decreases events.len(),
{
    if events.len() > 0 {
        lemma_failure_stays(e, events.drop_first(), request);
    }
}

proof fn lemma_after_one(state: Socks5State, events: Seq<EventView>, request: Seq<u8>)
    requires
        socks5_after(state, events, request) == Socks5State::Ready,
        state != Socks5State::Ready,
    ensures
        events.len() > 0,
        !(socks5_transition(state, events[0], request).0 is Failed),
        socks5_after(
            socks5_transition(state, events[0], request).0,
            events.drop_first(),
            request,
        ) == Socks5State::Ready,
{
    if events.len() > 0 {
        let next = socks5_transition(state, events[0], request).0;
        if let Socks5State::Failed(e) = next {
            lemma_failure_stays(e, events.drop_first(), request);
        }
    }
}

/// A handshake that ends with an open tunnel went the whole way: the
/// connection came up, the proxy accepted the offer with `05 00`, its reply
/// head said success, and the bound address arrived in full, behind its
/// length byte where it is a domain name. Nothing else opens a tunnel.
pub proof fn lemma_open_tunnel_was_granted(events: Seq<EventView>, request: Seq<u8>)
    requires
        socks5_after(Socks5State::Dial, events, request) == Socks5State::Ready,
    ensures
        events.len() >= 4,
        events[0] == EventView::Connected,
        events[1] == EventView::Received(accepted_method_reply()),
        events[2] matches EventView::Received(head) && grants(head) && (if head[3]
            == DOMAIN_TYPE {
            events.len() >= 5 && (events[3] matches EventView::Received(length) && length.len()
                == 1 && (events[4] matches EventView::Received(address) && address.len()
                == length[0] + 2))
        } else if head[3] == IPV4_TYPE {
            events[3] matches EventView::Received(address) && address.len() == 6
        } else {
            events[3] matches EventView::Received(address) && address.len() == 18
        }),
{
    lemma_after_one(Socks5State::Dial, events, request);
    let rest1 = events.drop_first();
    lemma_after_one(Socks5State::Greet, rest1, request);
    assert(rest1[0] == events[1]);
    let rest2 = rest1.drop_first();
    lemma_after_one(Socks5State::ReplyHead, rest2, request);
    assert(rest2[0] == events[2]);
    let after_head = socks5_transition(Socks5State::ReplyHead, rest2[0], request).0;
    let rest3 = rest2.drop_first();
    lemma_after_one(after_head, rest3, request);
    assert(rest3[0] == events[3]);
    if after_head == Socks5State::ReplyDomainLen {
        let after_length = socks5_transition(after_head, rest3[0], request).0;
        let rest4 = rest3.drop_first();
        lemma_after_one(after_length, rest4, request);
        assert(rest4[0] == events[4]);
    }
}

} // verus!
