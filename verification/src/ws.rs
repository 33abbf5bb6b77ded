//! What the chat session and the echo socket share: the frames of a
//! websocket connection as plain values, and the heartbeat rule.
//!
//! Time is a number of nanoseconds on a monotonic clock of the caller's
//! choosing.

use vstd::prelude::*;

verus! {

/// How often the liveness of the peer is checked, in nanoseconds.
pub const HEARTBEAT_INTERVAL: u64 = 5_000_000_000;

/// How long the peer may stay silent before it is dropped, in nanoseconds.
pub const CLIENT_TIMEOUT: u64 = 10_000_000_000;

/// Whether a peer last heard of at `last` has been silent for too long at
/// `now`: for more than [`CLIENT_TIMEOUT`]. A clock that ran backwards
/// counts as no time passed.
pub open spec fn timed_out(last: u64, now: u64) -> bool {
    now - last > CLIENT_TIMEOUT
}

/// Whether a peer last heard of at `last` has been silent for too long at
/// `now`.
pub fn silent_too_long(last: u64, now: u64) -> (late: bool)
    ensures
        late == timed_out(last, now),
{
    now > last && now - last > CLIENT_TIMEOUT
}

/// Why a connection is closed: a status code and, optionally, a text.
#[derive(Debug, PartialEq, Eq)]
pub struct CloseReason {
    pub code: u16,
    pub description: Option<String>,
}

/// A [`CloseReason`] as plain values.
pub struct CloseReasonView {
    pub code: u16,
    pub description: Option<Seq<char>>,
}

impl View for CloseReason {
    type V = CloseReasonView;

    open spec fn view(&self) -> CloseReasonView {
        CloseReasonView { code: self.code, description: self.description.deep_view() }
    }
}

impl DeepView for CloseReason {
    type V = CloseReasonView;

    open spec fn deep_view(&self) -> CloseReasonView {
        self@
    }
}

/// A frame that arrived from the peer.
#[derive(Debug, PartialEq, Eq)]
pub enum Frame {
    /// A text payload.
    Text(String),
    /// A binary payload.
    Binary(Vec<u8>),
    /// A piece of a fragmented message.
    Continuation,
    /// A liveness probe from the peer.
    Ping(Vec<u8>),
    /// The peer's answer to a probe.
    Pong(Vec<u8>),
    /// The peer closes the connection.
    Close(Option<CloseReason>),
    /// Nothing.
    Nop,
}

/// The transport could not make a frame of what the peer sent.
#[derive(Debug, PartialEq, Eq)]
pub struct ProtocolError;

} // verus!
