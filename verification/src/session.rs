//! One websocket chat session: the protocol state of a single connection.
//!
//! A session is a state machine. Each handler takes what happened (a frame
//! from the peer, a heartbeat tick, a reply from the broker), updates the
//! session and returns the [`Action`]s the caller has to perform, in order.
//! Time is a number of nanoseconds on a monotonic clock of the caller's
//! choosing.

use crate::server::ClientMessage;
use crate::server::ClientMessageView;
use crate::server::Disconnect;
use crate::server::Join;
use crate::server::JoinView;
use crate::server::Message;
use crate::text::chars_of;
use crate::text::debug_quote;
use crate::text::debug_quoted;
use crate::text::trim;
use crate::text::trimmed;
use crate::ws::silent_too_long;
use crate::ws::timed_out;
use crate::ws::CloseReason;
use crate::ws::CloseReasonView;
use crate::ws::Frame;
use crate::ws::ProtocolError;
use vstd::prelude::*;
use vstd::string::*;

verus! {

broadcast use vstd::string::group_string_axioms;

/// How many characters of `m` come before its first space.
pub open spec fn verb_len(m: Seq<char>) -> nat
    decreases m.len(),
{
    if m.len() > 0 && m[0] != ' ' {
        1 + verb_len(m.drop_first())
    } else {
        0
    }
}

/// The part of `m` before its first space.
pub open spec fn verb_of(m: Seq<char>) -> Seq<char> {
    m.take(verb_len(m) as int)
}

/// The part of `m` after its first space, if it has a space.
pub open spec fn argument_of(m: Seq<char>) -> Option<Seq<char>> {
    if verb_len(m) < m.len() {
        Some(m.skip(verb_len(m) as int + 1))
    } else {
        None
    }
}

/// A run of `k` characters without a space that ends at a space or at the
/// end of `m` is the verb.
pub proof fn lemma_verb_len(m: Seq<char>, k: int)
    requires
        0 <= k <= m.len(),
        forall|i: int| 0 <= i < k ==> #[trigger] m[i] != ' ',
        k < m.len() ==> m[k] == ' ',
    ensures
        verb_len(m) == k,
    decreases m.len(),
{
    if k > 0 {
        let rest = m.drop_first();
        assert forall|i: int| 0 <= i < k - 1 implies #[trigger] rest[i] != ' ' by {}
        lemma_verb_len(rest, k - 1);
    }
}

/// One line of text from the client, as the session understands it.
#[derive(Debug, PartialEq, Eq)]
pub enum Line {
    /// `/list`: the client asks for the room names.
    List,
    /// `/join`, with the room if one was given.
    Join(Option<String>),
    /// `/name`, with the name if one was given.
    Name(Option<String>),
    /// Any other line that starts with `/`; it holds the whole line.
    Unknown(String),
    /// A line to be said in the current room.
    Chat(String),
}

/// A [`Line`] as plain values.
pub enum LineView {
    List,
    Join(Option<Seq<char>>),
    Name(Option<Seq<char>>),
    Unknown(Seq<char>),
    Chat(Seq<char>),
}

impl View for Line {
    type V = LineView;

    open spec fn view(&self) -> LineView {
        match self {
            Line::List => LineView::List,
            Line::Join(room) => LineView::Join(room.deep_view()),
            Line::Name(name) => LineView::Name(name.deep_view()),
            Line::Unknown(line) => LineView::Unknown(line@),
            Line::Chat(text) => LineView::Chat(text@),
        }
    }
}

/// The grammar of client lines. White space around the line does not count.
/// A line that starts with `/` is a command: its verb runs up to the first
/// space and the rest, spaces included, is its argument. Any other line is
/// chat.
pub open spec fn parse(text: Seq<char>) -> LineView {
    let m = trimmed(text);
    if m.len() > 0 && m[0] == '/' {
        if verb_of(m) == "/list"@ {
            LineView::List
        } else if verb_of(m) == "/join"@ {
            LineView::Join(argument_of(m))
        } else if verb_of(m) == "/name"@ {
            LineView::Name(argument_of(m))
        } else {
            LineView::Unknown(m)
        }
    } else {
        LineView::Chat(m)
    }
}

/// Whether the first `len` characters of `cs` spell `word`.
fn spells(cs: &Vec<char>, len: usize, word: &str) -> (b: bool)
    requires
        len <= cs.len(),
    ensures
        b == (cs@.take(len as int) == word@),
{
    let ws = chars_of(word);
    if ws.len() != len {
        return false;
    }
    let mut i: usize = 0;
    while i < len
        invariant
            i <= len,
            len == ws.len(),
            len <= cs.len(),
            ws@ == word@,
            forall|j: int| 0 <= j < i ==> cs@[j] == ws@[j],
        decreases len - i,
    {
        if cs[i] != ws[i] {
            return false;
        }
        i += 1;
    }
    assert(cs@.take(len as int) =~= word@);
    true
}

/// Reads one line of text from the client.
pub fn parse_line(text: &str) -> (line: Line)
    ensures
        line@ == parse(text@),
{
    let m = trim(text);
    let cs = chars_of(m);
    let n = cs.len();
    if n > 0 && cs[0] == '/' {
        let mut i: usize = 0;
        while i < n && cs[i] != ' '
            invariant
                n == cs.len(),
                i <= n,
                forall|j: int| 0 <= j < i ==> #[trigger] cs@[j] != ' ',
            decreases n - i,
        {
            i += 1;
        }
        proof {
            lemma_verb_len(cs@, i as int);
        }
        if spells(&cs, i, "/list") {
            Line::List
        } else if spells(&cs, i, "/join") {
            Line::Join(argument(m, i, n))
        } else if spells(&cs, i, "/name") {
            Line::Name(argument(m, i, n))
        } else {
            Line::Unknown(m.to_owned())
        }
    } else {
        Line::Chat(m.to_owned())
    }
}

/// The argument of a command line `m` of `n` characters whose verb has `i`.
fn argument(m: &str, i: usize, n: usize) -> (arg: Option<String>)
    requires
        n == m@.len(),
        i == verb_len(m@),
        i <= n,
    ensures
        arg.deep_view() == argument_of(m@),
{
    if i < n {
        let rest = m.substring_char(i + 1, n);
        Some(rest.to_owned())
    } else {
        None
    }
}

/// Where a session is in its life.
#[derive(Clone, Copy, Debug, PartialEq, Eq)]
pub enum SessionState {
    /// Waiting for the broker to assign an identifier.
    Connecting,
    /// Registered and serving the peer.
    Active,
    /// Asked to stop; the broker has not been told yet.
    Closing,
    /// Done. Nothing happens any more.
    Closed,
}

/// Something the caller has to do on behalf of the session.
#[derive(Debug, PartialEq, Eq)]
pub enum Action {
    /// Send a text frame to the peer.
    Text(String),
    /// Send a liveness probe to the peer.
    Ping,
    /// Answer a probe of the peer, echoing its payload.
    Pong(Vec<u8>),
    /// Send a close frame to the peer.
    Close(Option<CloseReason>),
    /// Stop the session; the caller then calls [`WsChatSession::stopping`].
    Stop,
    /// Ask the broker for an identifier, hold back everything else until it
    /// answers, and pass the answer to [`WsChatSession::registered`].
    Connect,
    /// Tell the broker that the session is gone. No answer is awaited.
    Disconnect(Disconnect),
    /// Tell the broker that the session changes rooms. No answer is awaited.
    Join(Join),
    /// Hand the broker a line for a room. No answer is awaited.
    ClientMessage(ClientMessage),
    /// Ask the broker for the room names, hold back everything else until it
    /// answers, and pass the answer to [`WsChatSession::rooms_listed`].
    ListRooms,
}

/// An [`Action`] as plain values.
pub enum ActionView {
    Text(Seq<char>),
    Ping,
    Pong(Seq<u8>),
    Close(Option<CloseReasonView>),
    Stop,
    Connect,
    Disconnect(Disconnect),
    Join(JoinView),
    ClientMessage(ClientMessageView),
    ListRooms,
}

impl View for Action {
    type V = ActionView;

    open spec fn view(&self) -> ActionView {
        match self {
            Action::Text(line) => ActionView::Text(line@),
            Action::Ping => ActionView::Ping,
            Action::Pong(payload) => ActionView::Pong(payload@),
            Action::Close(reason) => ActionView::Close(reason.deep_view()),
            Action::Stop => ActionView::Stop,
            Action::Connect => ActionView::Connect,
            Action::Disconnect(msg) => ActionView::Disconnect(*msg),
            Action::Join(msg) => ActionView::Join(msg@),
            Action::ClientMessage(msg) => ActionView::ClientMessage(msg@),
            Action::ListRooms => ActionView::ListRooms,
        }
    }
}

impl DeepView for Action {
    type V = ActionView;

    open spec fn deep_view(&self) -> ActionView {
        self@
    }
}

/// The state of one chat session.
#[derive(Debug, PartialEq, Eq)]
pub struct WsChatSession {
    /// The identifier the broker assigned; 0 until it has.
    pub id: usize,
    /// When the peer was last heard of.
    pub hb: u64,
    /// The room the session speaks to.
    pub room: String,
    /// The name shown in front of what the session says, if it chose one.
    pub name: Option<String>,
    /// Where the session is in its life.
    pub state: SessionState,
}

/// A [`WsChatSession`] as plain values.
pub struct SessionView {
    pub id: usize,
    pub hb: u64,
    pub room: Seq<char>,
    pub name: Option<Seq<char>>,
    pub state: SessionState,
}

impl View for WsChatSession {
    type V = SessionView;

    open spec fn view(&self) -> SessionView {
        SessionView {
            id: self.id,
            hb: self.hb,
            room: self.room@,
            name: self.name.deep_view(),
            state: self.state,
        }
    }
}

/// What a handler leaves behind: the session after it, and what to do.
pub struct Outcome {
    pub session: SessionView,
    pub actions: Seq<ActionView>,
}

/// The line `m` as the room sees it when said under `name`.
pub open spec fn said(name: Option<Seq<char>>, m: Seq<char>) -> Seq<char> {
    match name {
        Some(name) => name + ": "@ + m,
        None => m,
    }
}

/// The complaint about a command whose quoted form is `quoted`.
pub open spec fn unknown_command(quoted: Seq<char>) -> Seq<char> {
    "!!! unknown command: "@ + quoted
}

impl SessionView {
    /// The session with nothing to do.
    pub open spec fn idle(self) -> Outcome {
        Outcome { session: self, actions: seq![] }
    }

    /// Whether the session still takes part: it is connecting or active.
    pub open spec fn live(self) -> bool {
        self.state is Connecting || self.state is Active
    }

    /// Whether at `now` the peer has been silent for too long.
    pub open spec fn timed_out(self, now: u64) -> bool {
        timed_out(self.hb, now)
    }

    /// A new session asks the broker for an identifier.
    pub open spec fn on_started(self) -> Outcome {
        if self.state is Connecting {
            Outcome { session: self, actions: seq![ActionView::Connect] }
        } else {
            self.idle()
        }
    }

    /// The broker answered the registration, or could not be reached.
    pub open spec fn on_registered(self, reply: Option<usize>) -> Outcome {
        if self.state is Connecting {
            match reply {
                Some(id) => Outcome {
                    session: SessionView { id, state: SessionState::Active, ..self },
                    actions: seq![],
                },
                None => Outcome {
                    session: SessionView { state: SessionState::Closing, ..self },
                    actions: seq![ActionView::Stop],
                },
            }
        } else {
            self.idle()
        }
    }

    /// The heartbeat timer fired at `now`.
    pub open spec fn on_tick(self, now: u64) -> Outcome {
        if !self.live() {
            self.idle()
        } else if self.timed_out(now) {
            Outcome {
                session: SessionView { state: SessionState::Closed, ..self },
                actions: seq![
                    ActionView::Disconnect(Disconnect { id: self.id }),
                    ActionView::Stop,
                ],
            }
        } else {
            Outcome { session: self, actions: seq![ActionView::Ping] }
        }
    }

    /// The peer sent the text `text`.
    pub open spec fn on_text(self, text: Seq<char>) -> Outcome {
        match parse(text) {
            LineView::List => Outcome { session: self, actions: seq![ActionView::ListRooms] },
            LineView::Join(Some(room)) => Outcome {
                session: SessionView { room, ..self },
                actions: seq![
                    ActionView::Join(JoinView { id: self.id, name: room }),
                    ActionView::Text("joined"@),
                ],
            },
            LineView::Join(None) => Outcome {
                session: self,
                actions: seq![ActionView::Text("!!! room name is required"@)],
            },
            LineView::Name(Some(name)) => Outcome {
                session: SessionView { name: Some(name), ..self },
                actions: seq![],
            },
            LineView::Name(None) => Outcome {
                session: self,
                actions: seq![ActionView::Text("!!! name is required"@)],
            },
            LineView::Unknown(line) => Outcome {
                session: self,
                actions: seq![ActionView::Text(unknown_command(debug_quoted(line)))],
            },
            LineView::Chat(m) => Outcome {
                session: self,
                actions: seq![
                    ActionView::ClientMessage(
                        ClientMessageView { id: self.id, msg: said(self.name, m), room: self.room },
                    ),
                ],
            },
        }
    }

    /// A frame arrived from the peer at `now`, or the transport failed.
    pub open spec fn on_frame(self, msg: Result<Frame, ProtocolError>, now: u64) -> Outcome {
        if !(self.state is Active) {
            self.idle()
        } else {
            match msg {
                Err(_) => Outcome {
                    session: SessionView { state: SessionState::Closing, ..self },
                    actions: seq![ActionView::Stop],
                },
                Ok(Frame::Ping(payload)) => Outcome {
                    session: SessionView { hb: now, ..self },
                    actions: seq![ActionView::Pong(payload@)],
                },
                Ok(Frame::Pong(_)) => Outcome {
                    session: SessionView { hb: now, ..self },
                    actions: seq![],
                },
                Ok(Frame::Text(text)) => self.on_text(text@),
                Ok(Frame::Binary(_)) => self.idle(),
                Ok(Frame::Close(reason)) => Outcome {
                    session: SessionView { state: SessionState::Closing, ..self },
                    actions: seq![ActionView::Close(reason.deep_view()), ActionView::Stop],
                },
                Ok(Frame::Continuation) => Outcome {
                    session: SessionView { state: SessionState::Closing, ..self },
                    actions: seq![ActionView::Stop],
                },
                Ok(Frame::Nop) => self.idle(),
            }
        }
    }

    /// The broker delivered the line `line`.
    pub open spec fn on_message(self, line: Seq<char>) -> Outcome {
        if self.state is Active {
            Outcome { session: self, actions: seq![ActionView::Text(line)] }
        } else {
            self.idle()
        }
    }

    /// The broker answered `/list` with `reply`, or could not be reached.
    pub open spec fn on_rooms(self, reply: Option<Seq<Seq<char>>>) -> Outcome {
        match reply {
            Some(rooms) if self.state is Active => Outcome {
                session: self,
                actions: rooms.map_values(|room: Seq<char>| ActionView::Text(room)),
            },
            _ => self.idle(),
        }
    }

    /// The session is being torn down.
    pub open spec fn on_stopping(self) -> Outcome {
        if self.state is Closed {
            self.idle()
        } else {
            Outcome {
                session: SessionView { state: SessionState::Closed, ..self },
                actions: seq![ActionView::Disconnect(Disconnect { id: self.id })],
            }
        }
    }
}

/// The line `m` as the room sees it when said under `name`.
pub fn say(name: &Option<String>, m: &str) -> (line: String)
    ensures
        line@ == said(name.deep_view(), m@),
{
    match name {
        Some(name) => {
            let mut line = name.clone();
            line.append(": ");
            line.append(m);
            line
        },
        None => m.to_owned(),
    }
}

/// The complaint about a command, given the command in quoted form.
pub fn unknown_command_line(quoted: &str) -> (line: String)
    ensures
        line@ == unknown_command(quoted@),
{
    let mut line = "!!! unknown command: ".to_owned();
    line.append(quoted);
    line
}

impl WsChatSession {
    /// A session for a connection accepted at `now`: not yet registered, in
    /// the room "main", without a name.
    pub fn new(now: u64) -> (session: Self)
        ensures
            session@ == (SessionView {
                id: 0,
                hb: now,
                room: "main"@,
                name: None,
                state: SessionState::Connecting,
            }),
    {
        WsChatSession {
            id: 0,
            hb: now,
            room: "main".to_owned(),
            name: None,
            state: SessionState::Connecting,
        }
    }

    /// The session starts: it asks the broker for an identifier.
    pub fn started(&self) -> (actions: Vec<Action>)
        ensures
            actions.deep_view() == self@.on_started().actions,
    {
        let mut actions: Vec<Action> = Vec::new();
        if let SessionState::Connecting = self.state {
            actions.push(Action::Connect);
        }
        actions
    }

    /// The broker's answer to the registration: the identifier, or `None`
    /// if the broker could not be reached. With an identifier the session
    /// becomes active; without one it stops.
    pub fn registered(&mut self, reply: Option<usize>) -> (actions: Vec<Action>)
        ensures
            final(self)@ == old(self)@.on_registered(reply).session,
            actions.deep_view() == old(self)@.on_registered(reply).actions,
    {
        let mut actions: Vec<Action> = Vec::new();
        if let SessionState::Connecting = self.state {
            match reply {
                Some(id) => {
                    self.id = id;
                    self.state = SessionState::Active;
                },
                None => {
                    self.state = SessionState::Closing;
                    actions.push(Action::Stop);
                },
            }
        }
        actions
    }

    /// The heartbeat check at `now`, due every
    /// [`HEARTBEAT_INTERVAL`](crate::ws::HEARTBEAT_INTERVAL). A peer that
    /// has been silent for more than
    /// [`CLIENT_TIMEOUT`](crate::ws::CLIENT_TIMEOUT) is given up: the broker
    /// is told and the session is closed. Any other peer is probed.
    pub fn hb(&mut self, now: u64) -> (actions: Vec<Action>)
        ensures
            final(self)@ == old(self)@.on_tick(now).session,
            actions.deep_view() == old(self)@.on_tick(now).actions,
    {
        let mut actions: Vec<Action> = Vec::new();
        let live = match self.state {
            SessionState::Connecting => true,
            SessionState::Active => true,
            _ => false,
        };
        if live {
            if silent_too_long(self.hb, now) {
                actions.push(Action::Disconnect(Disconnect { id: self.id }));
                actions.push(Action::Stop);
                self.state = SessionState::Closed;
            } else {
                actions.push(Action::Ping);
            }
        }
        actions
    }

    /// The session is torn down: unless it is closed already, the broker is
    /// told that the session `id` is gone, and the session is closed. For a
    /// session that never got an identifier, `id` is 0, which no registered
    /// session has.
    pub fn stopping(&mut self) -> (actions: Vec<Action>)
        ensures
            final(self)@ == old(self)@.on_stopping().session,
            actions.deep_view() == old(self)@.on_stopping().actions,
    {
        let mut actions: Vec<Action> = Vec::new();
        match self.state {
            SessionState::Closed => {},
            _ => {
                actions.push(Action::Disconnect(Disconnect { id: self.id }));
                self.state = SessionState::Closed;
            },
        }
        actions
    }

    /// A line from the broker is passed on to the peer as it is.
    pub fn message(&self, msg: Message) -> (actions: Vec<Action>)
        ensures
            actions.deep_view() == self@.on_message(msg@).actions,
    {
        let mut actions: Vec<Action> = Vec::new();
        if let SessionState::Active = self.state {
            actions.push(Action::Text(msg.0));
        }
        actions
    }

    /// The broker's answer to `/list`: the room names, or `None` if the
    /// broker could not be reached. Each name goes to the peer as a line of
    /// its own, in the order given.
    pub fn rooms_listed(&self, reply: Option<Vec<String>>) -> (actions: Vec<Action>)
        ensures
            actions.deep_view() == self@.on_rooms(reply.deep_view()).actions,
    {
        let mut actions: Vec<Action> = Vec::new();
        if let SessionState::Active = self.state {
            if let Some(rooms) = reply {
                let ghost names = rooms.deep_view();
                let n = rooms.len();
                let mut i: usize = 0;
                while i < n
                    invariant
                        n == rooms.len(),
                        i <= n,
                        names == rooms.deep_view(),
                        actions.deep_view() == names.take(i as int).map_values(
                            |room: Seq<char>| ActionView::Text(room),
                        ),
                    decreases n - i,
                {
                    let ghost done = actions.deep_view();
                    let room = rooms[i].clone();
                    actions.push(Action::Text(room));
                    i += 1;
                    assert(actions.deep_view() =~= done.push(ActionView::Text(names[i - 1])));
                }
                return actions;
            }
        }
        actions
    }

    /// The peer sent the text `text`: a command or a line of chat.
    fn text(&mut self, text: &str) -> (actions: Vec<Action>)
        ensures
            final(self)@ == old(self)@.on_text(text@).session,
            actions.deep_view() == old(self)@.on_text(text@).actions,
    {
        let mut actions: Vec<Action> = Vec::new();
        match parse_line(text) {
            Line::List => {
                actions.push(Action::ListRooms);
            },
            Line::Join(Some(room)) => {
                self.room = room;
                actions.push(Action::Join(Join { id: self.id, name: self.room.clone() }));
                actions.push(Action::Text("joined".to_owned()));
            },
            Line::Join(None) => {
                actions.push(Action::Text("!!! room name is required".to_owned()));
            },
            Line::Name(Some(name)) => {
                self.name = Some(name);
            },
            Line::Name(None) => {
                actions.push(Action::Text("!!! name is required".to_owned()));
            },
            Line::Unknown(line) => {
                let quoted = debug_quote(line.as_str());
                actions.push(Action::Text(unknown_command_line(quoted.as_str())));
            },
            Line::Chat(m) => {
                let msg = say(&self.name, m.as_str());
                actions.push(
                    Action::ClientMessage(
                        ClientMessage { id: self.id, msg, room: self.room.clone() },
                    ),
                );
            },
        }
        actions
    }

    /// A frame from the peer, or a failure of the transport, at `now`.
    ///
    /// Probes and their answers refresh the heartbeat. Text is a command or
    /// chat. Binary frames are dropped. A close frame is acknowledged and
    /// stops the session; a transport failure or a fragment stops it
    /// without a word. A session that is not active ignores all of it.
    pub fn handle(&mut self, msg: Result<Frame, ProtocolError>, now: u64) -> (actions: Vec<Action>)
        ensures
            final(self)@ == old(self)@.on_frame(msg, now).session,
            actions.deep_view() == old(self)@.on_frame(msg, now).actions,
    {
        let mut actions: Vec<Action> = Vec::new();
        if let SessionState::Active = self.state {
            match msg {
                Err(_) => {
                    self.state = SessionState::Closing;
                    actions.push(Action::Stop);
                },
                Ok(Frame::Ping(payload)) => {
                    self.hb = now;
                    actions.push(Action::Pong(payload));
                },
                Ok(Frame::Pong(_)) => {
                    self.hb = now;
                },
                Ok(Frame::Text(text)) => {
                    return self.text(text.as_str());
                },
                Ok(Frame::Binary(_)) => {},
                Ok(Frame::Close(reason)) => {
                    self.state = SessionState::Closing;
                    actions.push(Action::Close(reason));
                    actions.push(Action::Stop);
                },
                Ok(Frame::Continuation) => {
                    self.state = SessionState::Closing;
                    actions.push(Action::Stop);
                },
                Ok(Frame::Nop) => {},
            }
        }
        actions
    }
}

/// Anything that can happen to a session.
#[derive(Debug, PartialEq, Eq)]
pub enum Event {
    /// The session was started.
    Started,
    /// The broker answered the registration, or could not be reached.
    Registered(Option<usize>),
    /// The heartbeat timer fired at the given time.
    Tick(u64),
    /// A frame arrived at the given time, or the transport failed.
    Frame(Result<Frame, ProtocolError>, u64),
    /// The broker delivered a line.
    Message(Message),
    /// The broker answered `/list`, or could not be reached.
    Rooms(Option<Vec<String>>),
    /// The session is being torn down.
    Stopping,
}

/// How many of `actions` tell the broker that the session is gone.
pub open spec fn disconnects(actions: Seq<ActionView>) -> nat {
    actions.filter(|a: ActionView| a is Disconnect).len()
}

impl SessionView {
    /// What `event` does to the session.
    pub open spec fn step(self, event: Event) -> Outcome {
        match event {
            Event::Started => self.on_started(),
            Event::Registered(reply) => self.on_registered(reply),
            Event::Tick(now) => self.on_tick(now),
            Event::Frame(msg, now) => self.on_frame(msg, now),
            Event::Message(msg) => self.on_message(msg@),
            Event::Rooms(reply) => self.on_rooms(reply.deep_view()),
            Event::Stopping => self.on_stopping(),
        }
    }

    /// What `events` do to the session, one after the other: where it ends
    /// up, and everything there was to do on the way.
    pub open spec fn run(self, events: Seq<Event>) -> Outcome
        decreases events.len(),
    {
        if events.len() == 0 {
            self.idle()
        } else {
            let first = self.step(events.first());
            let rest = first.session.run(events.drop_first());
            Outcome { session: rest.session, actions: first.actions + rest.actions }
        }
    }
}

impl WsChatSession {
    /// Feeds one event to the session and returns what there is to do.
    pub fn step(&mut self, event: Event) -> (actions: Vec<Action>)
        ensures
            final(self)@ == old(self)@.step(event).session,
            actions.deep_view() == old(self)@.step(event).actions,
    {
        match event {
            Event::Started => self.started(),
            Event::Registered(reply) => self.registered(reply),
            Event::Tick(now) => self.hb(now),
            Event::Frame(msg, now) => self.handle(msg, now),
            Event::Message(msg) => self.message(msg),
            Event::Rooms(reply) => self.rooms_listed(reply),
            Event::Stopping => self.stopping(),
        }
    }
}

proof fn lemma_disconnects_empty()
    ensures
        disconnects(Seq::empty()) == 0,
{
    reveal(Seq::filter);
}

proof fn lemma_disconnects_push(actions: Seq<ActionView>, a: ActionView)
    ensures
        disconnects(actions.push(a)) == disconnects(actions) + if a is Disconnect {
            1nat
        } else {
            0nat
        },
{
    actions.lemma_filter_push(a, |a: ActionView| a is Disconnect);
}

proof fn lemma_disconnects_add(a: Seq<ActionView>, b: Seq<ActionView>)
    ensures
        disconnects(a + b) == disconnects(a) + disconnects(b),
{
    Seq::filter_distributes_over_add(a, b, |a: ActionView| a is Disconnect);
}

proof fn lemma_lines_hold_no_disconnect(lines: Seq<Seq<char>>)
    ensures
        disconnects(lines.map_values(|line: Seq<char>| ActionView::Text(line))) == 0,
    decreases lines.len(),
{
    let texts = lines.map_values(|line: Seq<char>| ActionView::Text(line));
    if lines.len() == 0 {
        lemma_disconnects_empty();
    } else {
        let front = lines.drop_last();
        lemma_lines_hold_no_disconnect(front);
        assert(texts =~= front.map_values(|line: Seq<char>| ActionView::Text(line)).push(
            ActionView::Text(lines.last()),
        ));
        lemma_disconnects_push(
            front.map_values(|line: Seq<char>| ActionView::Text(line)),
            ActionView::Text(lines.last()),
        );
    }
}

/// One event makes the session tell the broker that it is gone exactly
/// when the event closes it, and then once. A closed session stays closed
/// and asks for nothing.
pub proof fn lemma_step_disconnects(s: SessionView, event: Event)
    ensures
        s.state is Closed ==> s.step(event) == s.idle(),
        disconnects(s.step(event).actions) == if !(s.state is Closed) && s.step(
            event,
        ).session.state is Closed {
            1nat
        } else {
            0nat
        },
{
    let actions = s.step(event).actions;
    let none = Seq::<ActionView>::empty();
    lemma_disconnects_empty();
    if actions.len() == 0 {
    } else if let Event::Rooms(Some(rooms)) = event {
        lemma_lines_hold_no_disconnect(rooms.deep_view());
    } else if actions.len() == 1 {
        lemma_disconnects_push(none, actions[0]);
    } else {
        assert(actions =~= none.push(actions[0]).push(actions[1]));
        lemma_disconnects_push(none, actions[0]);
        lemma_disconnects_push(none.push(actions[0]), actions[1]);
    }
}

/// Whatever happens to a session, and in whatever order, the broker is
/// told at most once that it is gone: exactly once if the session ends up
/// closed and was not closed before, and not at all otherwise.
pub proof fn lemma_one_disconnect(s: SessionView, events: Seq<Event>)
    ensures
        disconnects(s.run(events).actions) == if !(s.state is Closed) && s.run(
            events,
        ).session.state is Closed {
            1nat
        } else {
            0nat
        },
        s.state is Closed ==> s.run(events) == s.idle(),
    decreases events.len(),
{
    if events.len() == 0 {
        lemma_disconnects_empty();
    } else {
        let first = s.step(events.first());
        let rest = first.session.run(events.drop_first());
        lemma_step_disconnects(s, events.first());
        lemma_one_disconnect(first.session, events.drop_first());
        lemma_disconnects_add(first.actions, rest.actions);
    }
}

/// A heartbeat check on a live session whose peer has been silent for too
/// long tells the broker once that the session is gone, closes the session
/// and sends no probe; and nothing that happens afterwards has any effect.
pub proof fn lemma_timeout_closes(s: SessionView, now: u64, later: Seq<Event>)
    requires
        s.live(),
        s.timed_out(now),
    ensures
        s.on_tick(now).session.state is Closed,
        disconnects(s.on_tick(now).actions) == 1,
        !s.on_tick(now).actions.contains(ActionView::Ping),
        s.on_tick(now).session.run(later) == s.on_tick(now).session.idle(),
{
    lemma_step_disconnects(s, Event::Tick(now));
    lemma_one_disconnect(s.on_tick(now).session, later);
}

} // verus!
