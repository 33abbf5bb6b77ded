use webdemo::server::ClientMessage;
use webdemo::server::Disconnect;
use webdemo::server::Join;
use webdemo::server::Message;
use webdemo::session::parse_line;
use webdemo::session::say;
use webdemo::session::unknown_command_line;
use webdemo::session::Action;
use webdemo::session::Event;
use webdemo::session::Line;
use webdemo::session::SessionState;
use webdemo::session::WsChatSession;
use webdemo::ws::CloseReason;
use webdemo::ws::Frame;
use webdemo::ws::ProtocolError;
use webdemo::ws::CLIENT_TIMEOUT;
use webdemo::ws::HEARTBEAT_INTERVAL;

fn active(id: usize) -> WsChatSession {
    let mut session = WsChatSession::new(0);
    assert_eq!(session.registered(Some(id)), vec![]);
    session
}

fn text(session: &mut WsChatSession, line: &str) -> Vec<Action> {
    session.handle(Ok(Frame::Text(line.to_owned())), 1)
}

#[test]
fn heartbeat_constants() {
    assert_eq!(HEARTBEAT_INTERVAL, 5_000_000_000);
    assert_eq!(CLIENT_TIMEOUT, 10_000_000_000);
    assert_eq!(CLIENT_TIMEOUT, 2 * HEARTBEAT_INTERVAL);
}

#[test]
fn parse_list() {
    assert_eq!(parse_line("/list"), Line::List);
    assert_eq!(parse_line("  /list  "), Line::List);
    assert_eq!(parse_line("/list please"), Line::List);
}

#[test]
fn parse_join_with_and_without_room() {
    assert_eq!(parse_line("/join lobby"), Line::Join(Some("lobby".to_owned())));
    assert_eq!(parse_line("/join"), Line::Join(None));
    assert_eq!(parse_line(" /join \n"), Line::Join(None));
}

#[test]
fn parse_argument_is_everything_after_the_first_space() {
    assert_eq!(parse_line("/join the  lobby"), Line::Join(Some("the  lobby".to_owned())));
    assert_eq!(parse_line("/join  lobby"), Line::Join(Some(" lobby".to_owned())));
    assert_eq!(parse_line("/name Ann Lee"), Line::Name(Some("Ann Lee".to_owned())));
}

#[test]
fn parse_name_with_and_without_name() {
    assert_eq!(parse_line("/name bob"), Line::Name(Some("bob".to_owned())));
    assert_eq!(parse_line("/name"), Line::Name(None));
}

#[test]
fn parse_unknown_command_keeps_the_whole_line() {
    assert_eq!(parse_line(" /quit now "), Line::Unknown("/quit now".to_owned()));
    assert_eq!(parse_line("/"), Line::Unknown("/".to_owned()));
    assert_eq!(parse_line("/listx"), Line::Unknown("/listx".to_owned()));
    assert_eq!(parse_line("/JOIN a"), Line::Unknown("/JOIN a".to_owned()));
    assert_eq!(parse_line("/join\tlobby"), Line::Unknown("/join\tlobby".to_owned()));
}

#[test]
fn parse_chat() {
    assert_eq!(parse_line("hello there"), Line::Chat("hello there".to_owned()));
    assert_eq!(parse_line("  hi /list "), Line::Chat("hi /list".to_owned()));
    assert_eq!(parse_line("   "), Line::Chat("".to_owned()));
    assert_eq!(parse_line(""), Line::Chat("".to_owned()));
}

#[test]
fn say_with_and_without_name() {
    assert_eq!(say(&None, "hi"), "hi");
    assert_eq!(say(&Some("bob".to_owned()), "hi"), "bob: hi");
}

#[test]
fn unknown_command_line_has_the_prefix() {
    assert_eq!(unknown_command_line("\"/x\""), "!!! unknown command: \"/x\"");
}

#[test]
fn new_session_is_connecting_in_main() {
    let session = WsChatSession::new(42);
    assert_eq!(session.id, 0);
    assert_eq!(session.hb, 42);
    assert_eq!(session.room, "main");
    assert_eq!(session.name, None);
    assert_eq!(session.state, SessionState::Connecting);
}

#[test]
fn started_asks_for_registration() {
    let session = WsChatSession::new(0);
    assert_eq!(session.started(), vec![Action::Connect]);
}

#[test]
fn started_twice_does_nothing_once_active() {
    let session = active(5);
    assert_eq!(session.started(), vec![]);
}

#[test]
fn registration_makes_the_session_active() {
    let mut session = WsChatSession::new(0);
    assert_eq!(session.registered(Some(77)), vec![]);
    assert_eq!(session.id, 77);
    assert_eq!(session.state, SessionState::Active);
}

#[test]
fn failed_registration_stops_the_session() {
    let mut session = WsChatSession::new(0);
    assert_eq!(session.registered(None), vec![Action::Stop]);
    assert_eq!(session.state, SessionState::Closing);
    assert_eq!(session.id, 0);
}

#[test]
fn late_registration_reply_is_ignored() {
    let mut session = active(5);
    assert_eq!(session.registered(Some(9)), vec![]);
    assert_eq!(session.id, 5);
    session.stopping();
    assert_eq!(session.registered(Some(9)), vec![]);
    assert_eq!(session.id, 5);
    assert_eq!(session.state, SessionState::Closed);
}

#[test]
fn join_without_room_is_an_error_and_changes_nothing() {
    let mut session = active(5);
    let actions = text(&mut session, "/join");
    assert_eq!(actions, vec![Action::Text("!!! room name is required".to_owned())]);
    assert_eq!(actions.len(), 1);
    match &actions[0] {
        Action::Text(line) => assert!(line.contains("room name is required")),
        _ => panic!("an error line was expected"),
    }
    assert_eq!(session.room, "main");
    assert_eq!(session.state, SessionState::Active);
}

#[test]
fn join_with_room_moves_the_session() {
    let mut session = active(5);
    assert_eq!(
        text(&mut session, "/join lobby"),
        vec![
            Action::Join(Join { id: 5, name: "lobby".to_owned() }),
            Action::Text("joined".to_owned())
        ]
    );
    assert_eq!(session.room, "lobby");
}

#[test]
fn name_without_name_is_an_error() {
    let mut session = active(5);
    assert_eq!(
        text(&mut session, "/name"),
        vec![Action::Text("!!! name is required".to_owned())]
    );
    assert_eq!(session.name, None);
}

#[test]
fn name_is_local_and_prefixes_later_lines() {
    let mut session = active(5);
    assert_eq!(text(&mut session, "/name bob"), vec![]);
    assert_eq!(session.name, Some("bob".to_owned()));
    assert_eq!(
        text(&mut session, " hello "),
        vec![Action::ClientMessage(ClientMessage {
            id: 5,
            msg: "bob: hello".to_owned(),
            room: "main".to_owned()
        })]
    );
}

#[test]
fn chat_goes_to_the_current_room() {
    let mut session = active(5);
    text(&mut session, "/join lobby");
    assert_eq!(
        text(&mut session, "hi all"),
        vec![Action::ClientMessage(ClientMessage {
            id: 5,
            msg: "hi all".to_owned(),
            room: "lobby".to_owned()
        })]
    );
}

#[test]
fn list_asks_the_broker() {
    let mut session = active(5);
    assert_eq!(text(&mut session, "/list"), vec![Action::ListRooms]);
}

#[test]
fn unknown_command_is_named_in_quotes() {
    let mut session = active(5);
    assert_eq!(
        text(&mut session, "/quit \"now\""),
        vec![Action::Text("!!! unknown command: \"/quit \\\"now\\\"\"".to_owned())]
    );
    assert_eq!(session.state, SessionState::Active);
}

#[test]
fn rooms_are_listed_one_per_line_in_order() {
    let session = active(5);
    assert_eq!(
        session.rooms_listed(Some(vec!["main".to_owned(), "lobby".to_owned()])),
        vec![Action::Text("main".to_owned()), Action::Text("lobby".to_owned())]
    );
    assert_eq!(session.rooms_listed(Some(vec![])), vec![]);
    assert_eq!(session.rooms_listed(None), vec![]);
}

#[test]
fn broker_lines_are_forwarded_verbatim() {
    let session = active(5);
    assert_eq!(
        session.message(Message("  Someone joined ".to_owned())),
        vec![Action::Text("  Someone joined ".to_owned())]
    );
}

#[test]
fn broker_lines_are_dropped_unless_active() {
    let session = WsChatSession::new(0);
    assert_eq!(session.message(Message("x".to_owned())), vec![]);
    let mut closed = active(5);
    closed.stopping();
    assert_eq!(closed.message(Message("x".to_owned())), vec![]);
}

#[test]
fn ping_is_answered_and_refreshes_the_heartbeat() {
    let mut session = active(5);
    assert_eq!(
        session.handle(Ok(Frame::Ping(vec![1, 2])), 50),
        vec![Action::Pong(vec![1, 2])]
    );
    assert_eq!(session.hb, 50);
}

#[test]
fn pong_refreshes_the_heartbeat_silently() {
    let mut session = active(5);
    assert_eq!(session.handle(Ok(Frame::Pong(vec![])), 60), vec![]);
    assert_eq!(session.hb, 60);
}

#[test]
fn text_does_not_refresh_the_heartbeat() {
    let mut session = active(5);
    session.handle(Ok(Frame::Text("hi".to_owned())), 60);
    assert_eq!(session.hb, 0);
}

#[test]
fn binary_and_nop_are_dropped() {
    let mut session = active(5);
    assert_eq!(session.handle(Ok(Frame::Binary(vec![1])), 1), vec![]);
    assert_eq!(session.handle(Ok(Frame::Nop), 1), vec![]);
    assert_eq!(session.state, SessionState::Active);
}

#[test]
fn close_frame_is_acknowledged_then_one_disconnect() {
    let mut session = active(5);
    let reason = Some(CloseReason { code: 1001, description: None });
    assert_eq!(
        session.handle(Ok(Frame::Close(reason)), 1),
        vec![Action::Close(Some(CloseReason { code: 1001, description: None })), Action::Stop]
    );
    assert_eq!(session.state, SessionState::Closing);
    assert_eq!(session.stopping(), vec![Action::Disconnect(Disconnect { id: 5 })]);
    assert_eq!(session.state, SessionState::Closed);
    assert_eq!(session.stopping(), vec![]);
}

#[test]
fn transport_error_stops_without_acknowledgment() {
    let mut session = active(5);
    assert_eq!(session.handle(Err(ProtocolError), 1), vec![Action::Stop]);
    assert_eq!(session.state, SessionState::Closing);
    assert_eq!(session.stopping(), vec![Action::Disconnect(Disconnect { id: 5 })]);
}

#[test]
fn continuation_stops_the_session() {
    let mut session = active(5);
    assert_eq!(session.handle(Ok(Frame::Continuation), 1), vec![Action::Stop]);
    assert_eq!(session.state, SessionState::Closing);
}

#[test]
fn frames_are_ignored_unless_active() {
    let mut session = WsChatSession::new(0);
    assert_eq!(session.handle(Ok(Frame::Text("hi".to_owned())), 1), vec![]);
    assert_eq!(session.handle(Ok(Frame::Ping(vec![])), 9), vec![]);
    assert_eq!(session.hb, 0);
    let mut closing = active(5);
    closing.handle(Err(ProtocolError), 1);
    assert_eq!(closing.handle(Ok(Frame::Text("hi".to_owned())), 2), vec![]);
}

#[test]
fn heartbeat_probes_within_the_timeout() {
    let mut session = active(5);
    assert_eq!(session.hb(HEARTBEAT_INTERVAL), vec![Action::Ping]);
    assert_eq!(session.hb(CLIENT_TIMEOUT), vec![Action::Ping]);
    assert_eq!(session.state, SessionState::Active);
}

#[test]
fn heartbeat_timeout_disconnects_once_and_closes() {
    let mut session = active(5);
    let actions = session.hb(CLIENT_TIMEOUT + 1);
    assert_eq!(actions, vec![Action::Disconnect(Disconnect { id: 5 }), Action::Stop]);
    assert!(!actions.contains(&Action::Ping));
    assert_eq!(session.state, SessionState::Closed);
    assert_eq!(session.stopping(), vec![]);
    assert_eq!(session.hb(CLIENT_TIMEOUT + HEARTBEAT_INTERVAL), vec![]);
    assert_eq!(session.handle(Ok(Frame::Text("hi".to_owned())), 1), vec![]);
}

#[test]
fn heartbeat_counts_from_the_last_sign_of_life() {
    let mut session = active(5);
    session.handle(Ok(Frame::Pong(vec![])), 7_000_000_000);
    assert_eq!(session.hb(CLIENT_TIMEOUT + 1), vec![Action::Ping]);
    assert_eq!(
        session.hb(7_000_000_000 + CLIENT_TIMEOUT + 1),
        vec![Action::Disconnect(Disconnect { id: 5 }), Action::Stop]
    );
}

#[test]
fn heartbeat_with_a_clock_that_ran_backwards_probes() {
    let mut session = WsChatSession::new(100);
    session.registered(Some(5));
    assert_eq!(session.hb(3), vec![Action::Ping]);
}

#[test]
fn stopping_while_connecting_reports_the_unset_identifier() {
    let mut session = WsChatSession::new(0);
    assert_eq!(session.stopping(), vec![Action::Disconnect(Disconnect { id: 0 })]);
    assert_eq!(session.state, SessionState::Closed);
}

#[test]
fn step_dispatches_every_event() {
    let mut session = WsChatSession::new(0);
    assert_eq!(session.step(Event::Started), vec![Action::Connect]);
    assert_eq!(session.step(Event::Registered(Some(3))), vec![]);
    assert_eq!(session.step(Event::Tick(1)), vec![Action::Ping]);
    assert_eq!(
        session.step(Event::Message(Message("x".to_owned()))),
        vec![Action::Text("x".to_owned())]
    );
    assert_eq!(
        session.step(Event::Frame(Ok(Frame::Text("/list".to_owned())), 2)),
        vec![Action::ListRooms]
    );
    assert_eq!(
        session.step(Event::Rooms(Some(vec!["main".to_owned()]))),
        vec![Action::Text("main".to_owned())]
    );
    assert_eq!(session.step(Event::Stopping), vec![Action::Disconnect(Disconnect { id: 3 })]);
    assert_eq!(session.step(Event::Tick(3)), vec![]);
}

#[test]
fn at_most_one_disconnect_over_a_whole_life() {
    let mut session = WsChatSession::new(0);
    let events = vec![
        Event::Started,
        Event::Registered(Some(8)),
        Event::Frame(Ok(Frame::Text("hello".to_owned())), 1),
        Event::Tick(CLIENT_TIMEOUT + 5),
        Event::Stopping,
        Event::Tick(CLIENT_TIMEOUT + 6),
        Event::Frame(Err(ProtocolError), 2),
        Event::Stopping,
    ];
    let mut disconnects = 0;
    for event in events {
        for action in session.step(event) {
            if let Action::Disconnect(d) = action {
                assert_eq!(d.id, 8);
                disconnects += 1;
            }
        }
    }
    assert_eq!(disconnects, 1);
    assert_eq!(session.state, SessionState::Closed);
}
