//! The echo socket: whatever the peer sends comes back, and a peer that
//! falls silent is dropped.

use crate::ws::silent_too_long;
use crate::ws::timed_out;
use crate::ws::CloseReason;
use crate::ws::CloseReasonView;
use crate::ws::Frame;
use crate::ws::ProtocolError;
use vstd::prelude::*;

verus! {

/// Something the caller has to do on behalf of the echo socket.
#[derive(Debug, PartialEq, Eq)]
pub enum Reply {
    /// Send a text frame to the peer.
    Text(String),
    /// Send a binary frame to the peer.
    Binary(Vec<u8>),
    /// Send a liveness probe to the peer.
    Ping,
    /// Answer a probe of the peer, echoing its payload.
    Pong(Vec<u8>),
    /// Send a close frame to the peer.
    Close(Option<CloseReason>),
    /// Stop the socket.
    Stop,
}

/// A [`Reply`] as plain values.
pub enum ReplyView {
    Text(Seq<char>),
    Binary(Seq<u8>),
    Ping,
    Pong(Seq<u8>),
    Close(Option<CloseReasonView>),
    Stop,
}

impl View for Reply {
    type V = ReplyView;

    open spec fn view(&self) -> ReplyView {
        match self {
            Reply::Text(text) => ReplyView::Text(text@),
            Reply::Binary(payload) => ReplyView::Binary(payload@),
            Reply::Ping => ReplyView::Ping,
            Reply::Pong(payload) => ReplyView::Pong(payload@),
            Reply::Close(reason) => ReplyView::Close(reason.deep_view()),
            Reply::Stop => ReplyView::Stop,
        }
    }
}

impl DeepView for Reply {
    type V = ReplyView;

    open spec fn deep_view(&self) -> ReplyView {
        self@
    }
}

/// What the echo socket answers to a frame, or to a failure of the
/// transport: text and binary payloads come back as they are, a probe is
/// answered with its payload, a close frame is acknowledged and stops the
/// socket, and anything else stops it without a word.
pub open spec fn echo_of(msg: Result<Frame, ProtocolError>) -> Seq<ReplyView> {
    match msg {
        Ok(Frame::Ping(payload)) => seq![ReplyView::Pong(payload@)],
        Ok(Frame::Pong(_)) => seq![],
        Ok(Frame::Text(text)) => seq![ReplyView::Text(text@)],
        Ok(Frame::Binary(payload)) => seq![ReplyView::Binary(payload@)],
        Ok(Frame::Close(reason)) => seq![ReplyView::Close(reason.deep_view()), ReplyView::Stop],
        _ => seq![ReplyView::Stop],
    }
}

/// Whether a frame shows that the peer is alive: a probe or the answer to
/// one.
pub open spec fn is_sign_of_life(msg: Result<Frame, ProtocolError>) -> bool {
    msg matches Ok(frame) && (frame is Ping || frame is Pong)
}

/// The state of one echo socket.
#[derive(Debug, PartialEq, Eq)]
pub struct MyWebSocket {
    last_heartbeat: u64,
}

impl View for MyWebSocket {
    type V = u64;

    /// When the peer was last heard of.
    closed spec fn view(&self) -> u64 {
        self.last_heartbeat
    }
}

impl MyWebSocket {
    /// A socket for a connection accepted at `now`.
    pub fn new(now: u64) -> (socket: Self)
        ensures
            socket@ == now,
    {
        MyWebSocket { last_heartbeat: now }
    }

    /// The heartbeat check at `now`, due every
    /// [`HEARTBEAT_INTERVAL`](crate::ws::HEARTBEAT_INTERVAL): a peer that
    /// has been silent for more than
    /// [`CLIENT_TIMEOUT`](crate::ws::CLIENT_TIMEOUT) is dropped, any other
    /// is probed.
    pub fn heartbeat(&self, now: u64) -> (replies: Vec<Reply>)
        ensures
            replies.deep_view() == if timed_out(self@, now) {
                seq![ReplyView::Stop]
            } else {
                seq![ReplyView::Ping]
            },
    {
        let mut replies: Vec<Reply> = Vec::new();
        if silent_too_long(self.last_heartbeat, now) {
            replies.push(Reply::Stop);
        } else {
            replies.push(Reply::Ping);
        }
        replies
    }

    /// A frame from the peer, or a failure of the transport, at `now`. A
    /// probe or the answer to one refreshes the heartbeat; the replies are
    /// those of [`echo_of`].
    pub fn handle(&mut self, msg: Result<Frame, ProtocolError>, now: u64) -> (replies: Vec<Reply>)
        ensures
            final(self)@ == if is_sign_of_life(msg) {
                now
            } else {
                old(self)@
            },
            replies.deep_view() == echo_of(msg),
    {
        let mut replies: Vec<Reply> = Vec::new();
        match msg {
            Ok(Frame::Ping(payload)) => {
                self.last_heartbeat = now;
                replies.push(Reply::Pong(payload));
            },
            Ok(Frame::Pong(_)) => {
                self.last_heartbeat = now;
            },
            Ok(Frame::Text(text)) => {
                replies.push(Reply::Text(text));
            },
            Ok(Frame::Binary(payload)) => {
                replies.push(Reply::Binary(payload));
            },
            Ok(Frame::Close(reason)) => {
                replies.push(Reply::Close(reason));
                replies.push(Reply::Stop);
            },
            _ => {
                replies.push(Reply::Stop);
            },
        }
        replies
    }
}

} // verus!
