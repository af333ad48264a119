//! The rule by which the two copy loops of a tunnel end. The loops
//! themselves move bytes and live with the sockets; what is decided here is
//! what to close, and when.

use vstd::prelude::*;

verus! {

/// Bytes that one read of a copy loop takes at most.
pub const READ_BUFFER_BYTES: usize = 8192;

/// The two ends of a tunnel.
#[derive(Clone, Copy, Debug, PartialEq, Eq, Structural)]
pub enum Side {
    Client,
    Upstream,
}

/// What happened to the tunnel.
#[derive(Clone, Copy, Debug, PartialEq, Eq, Structural)]
pub enum PumpEvent {
    /// The loop that reads from this side has ended: the side closed its
    /// stream, or a read or a write of the loop failed.
    Ended(Side),
    /// The epoch token or the shutdown token fired.
    Cancelled,
}

/// What to do about it.
#[derive(Clone, Copy, Debug, PartialEq, Eq, Structural)]
pub enum PumpAction {
    /// Close this side for writing, so that it sees the end of the stream;
    /// the other loop goes on.
    CloseWrite(Side),
    /// Both loops are over: drop them and close both streams.
    Release,
    /// Nothing to do.
    Carry,
}

/// Which loops still run.
#[derive(Clone, Copy, Debug, PartialEq, Eq, Structural)]
pub struct Pump {
    /// The loop that reads from the client and writes to the upstream.
    pub from_client: bool,
    /// The loop that reads from the upstream and writes to the client.
    pub from_upstream: bool,
}

pub open spec fn other(side: Side) -> Side {
    match side {
        Side::Client => Side::Upstream,
        Side::Upstream => Side::Client,
    }
}

impl Pump {
    /// Whether the loop that reads from `side` still runs.
    pub open spec fn runs(self, side: Side) -> bool {
        match side {
            Side::Client => self.from_client,
            Side::Upstream => self.from_upstream,
        }
    }

    pub open spec fn released(self) -> bool {
        !self.from_client && !self.from_upstream
    }

    /// The pump without the loop that reads from `side`.
    pub open spec fn without(self, side: Side) -> Pump {
        match side {
            Side::Client => Pump { from_client: false, ..self },
            Side::Upstream => Pump { from_upstream: false, ..self },
        }
    }

    /// The pump after `event`, and what to do. When a loop ends while the
    /// other still runs, the side that it wrote to is closed for writing;
    /// when the second loop ends, or on cancellation, everything is released.
    pub open spec fn after(self, event: PumpEvent) -> (Pump, PumpAction) {
        if self.released() {
            (self, PumpAction::Carry)
        } else {
            match event {
                PumpEvent::Cancelled => (
                    Pump { from_client: false, from_upstream: false },
                    PumpAction::Release,
                ),
                PumpEvent::Ended(side) => if !self.runs(side) {
                    (self, PumpAction::Carry)
                } else if self.runs(other(side)) {
                    (self.without(side), PumpAction::CloseWrite(other(side)))
                } else {
                    (self.without(side), PumpAction::Release)
                },
            }
        }
    }

    /// A pump with both loops running.
    pub fn start() -> (pump: Pump)
        ensures
            pump.from_client && pump.from_upstream,
    {
        Pump { from_client: true, from_upstream: true }
    }

    /// Takes note of `event` and says what to do.
    pub fn advance(&mut self, event: PumpEvent) -> (action: PumpAction)
        ensures
            (*final(self), action) == old(self).after(event),
    {
        if !self.from_client && !self.from_upstream {
            return PumpAction::Carry;
        }
        match event {
            PumpEvent::Cancelled => {
                self.from_client = false;
                self.from_upstream = false;
                PumpAction::Release
            },
            PumpEvent::Ended(Side::Client) => {
                if !self.from_client {
                    PumpAction::Carry
                } else {
                    self.from_client = false;
                    if self.from_upstream {
                        PumpAction::CloseWrite(Side::Upstream)
                    } else {
                        PumpAction::Release
                    }
                }
            },
            PumpEvent::Ended(Side::Upstream) => {
                if !self.from_upstream {
                    PumpAction::Carry
                } else {
                    self.from_upstream = false;
                    if self.from_client {
                        PumpAction::CloseWrite(Side::Client)
                    } else {
                        PumpAction::Release
                    }
                }
            },
        }
    }
}

/// The streams are released exactly when the last loop goes: on
/// cancellation, or when a loop ends and the other has ended before.
pub proof fn lemma_release_when_last_loop_ends(pump: Pump, event: PumpEvent)
    ensures
        pump.after(event).1 == PumpAction::Release <==> !pump.released() && pump.after(
            event,
        ).0.released(),
{
}

/// Cancellation ends every pump that still runs, whatever its state.
pub proof fn lemma_cancellation_releases(pump: Pump)
    requires
        !pump.released(),
    ensures
        pump.after(PumpEvent::Cancelled) == (
            Pump { from_client: false, from_upstream: false },
            PumpAction::Release,
        ),
{
}

/// A loop that ends stops no bytes that flow the other way: the other loop
/// runs on, and only the side that the ended loop wrote to is closed, and
/// only for writing.
pub proof fn lemma_other_loop_goes_on(pump: Pump, side: Side)
    requires
        pump.runs(side),
        pump.runs(other(side)),
    ensures
        pump.after(PumpEvent::Ended(side)).0.runs(other(side)),
        !pump.after(PumpEvent::Ended(side)).0.runs(side),
        pump.after(PumpEvent::Ended(side)).1 == PumpAction::CloseWrite(other(side)),
{
}

/// No loop is ever started again.
pub proof fn lemma_loops_only_end(pump: Pump, event: PumpEvent, side: Side)
    requires
        !pump.runs(side),
    ensures
        !pump.after(event).0.runs(side),
{
}

} // verus!
