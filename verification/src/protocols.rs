//! Client sides of the upstream protocols, written as state machines that
//! never touch a socket: the caller reports what happened on the wire as an
//! `Event` and carries out the `Action` it gets back.

use crate::error::ProxyError;
use vstd::prelude::*;

pub mod agreement;
pub mod http;
pub mod roundtrip;
pub mod socks;

verus! {

/// What happened on the connection since the last action.
#[derive(Debug, PartialEq, Eq)]
pub enum Event {
    /// The TCP connection is open.
    Connected,
    /// The bytes that were asked for have arrived.
    Received(Vec<u8>),
    /// A line has arrived, with its line ending; empty at end of stream.
    Line(String),
    /// The read did not finish in time.
    TimedOut,
    /// The socket failed.
    IoFailed,
    /// The shutdown token or the epoch token fired.
    Cancelled,
}

pub enum EventView {
    Connected,
    Received(Seq<u8>),
    Line(Seq<char>),
    TimedOut,
    IoFailed,
    Cancelled,
}

impl View for Event {
    type V = EventView;

    open spec fn view(&self) -> EventView {
        match self {
            Event::Connected => EventView::Connected,
            Event::Received(bytes) => EventView::Received(bytes@),
            Event::Line(line) => EventView::Line(line@),
            Event::TimedOut => EventView::TimedOut,
            Event::IoFailed => EventView::IoFailed,
            Event::Cancelled => EventView::Cancelled,
        }
    }
}

/// What to read from the connection.
#[derive(Clone, Copy, Debug, PartialEq, Eq, Structural)]
pub enum Wait {
    /// Exactly this many bytes.
    Bytes(usize),
    /// One line, up to and including its line feed.
    Line,
}

/// What the caller does next.
#[derive(Debug, PartialEq, Eq)]
pub enum Action {
    /// Write `send`, then read what `wait` says and report it.
    Exchange { send: Vec<u8>, wait: Wait },
    /// The handshake is complete; the connection is ready for traffic.
    Done,
    /// Give up with this error.
    Fail(ProxyError),
}

pub enum ActionView {
    Exchange { send: Seq<u8>, wait: Wait },
    Done,
    Fail(ProxyError),
}

impl View for Action {
    type V = ActionView;

    open spec fn view(&self) -> ActionView {
        match self {
            Action::Exchange { send, wait } => ActionView::Exchange { send: send@, wait: *wait },
            Action::Done => ActionView::Done,
            Action::Fail(e) => ActionView::Fail(*e),
        }
    }
}

/// Copies a run of bytes.
pub fn copy_bytes(bytes: &[u8]) -> (copy: Vec<u8>)
    ensures
        copy@ == bytes@,
{
    let mut copy: Vec<u8> = Vec::with_capacity(bytes.len());
    let mut i: usize = 0;
    while i < bytes.len()
        invariant
            i <= bytes.len(),
            copy@ == bytes@.take(i as int),
        decreases bytes.len() - i,
    {
        copy.push(bytes[i]);
        i += 1;
    }
    copy
}

} // verus!
