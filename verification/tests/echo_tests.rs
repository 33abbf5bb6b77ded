use webdemo::echo::MyWebSocket;
use webdemo::echo::Reply;
use webdemo::ws::CloseReason;
use webdemo::ws::Frame;
use webdemo::ws::ProtocolError;
use webdemo::ws::CLIENT_TIMEOUT;
use webdemo::ws::HEARTBEAT_INTERVAL;

#[test]
fn echo_heartbeat_probes_a_fresh_peer() {
    let socket = MyWebSocket::new(100);
    assert_eq!(socket.heartbeat(100 + HEARTBEAT_INTERVAL), vec![Reply::Ping]);
}

#[test]
fn echo_heartbeat_at_the_limit_still_probes() {
    let socket = MyWebSocket::new(100);
    assert_eq!(socket.heartbeat(100 + CLIENT_TIMEOUT), vec![Reply::Ping]);
}

#[test]
fn echo_heartbeat_past_the_limit_stops() {
    let socket = MyWebSocket::new(100);
    assert_eq!(socket.heartbeat(100 + CLIENT_TIMEOUT + 1), vec![Reply::Stop]);
}

#[test]
fn echo_heartbeat_with_a_clock_that_ran_backwards_probes() {
    let socket = MyWebSocket::new(100);
    assert_eq!(socket.heartbeat(0), vec![Reply::Ping]);
}

#[test]
fn echo_returns_text_and_binary() {
    let mut socket = MyWebSocket::new(0);
    assert_eq!(
        socket.handle(Ok(Frame::Text("hi".to_owned())), 1),
        vec![Reply::Text("hi".to_owned())]
    );
    assert_eq!(
        socket.handle(Ok(Frame::Binary(vec![1, 2, 3])), 2),
        vec![Reply::Binary(vec![1, 2, 3])]
    );
}

#[test]
fn echo_text_does_not_refresh_the_heartbeat() {
    let mut socket = MyWebSocket::new(0);
    socket.handle(Ok(Frame::Text("hi".to_owned())), CLIENT_TIMEOUT);
    assert_eq!(socket.heartbeat(CLIENT_TIMEOUT + 1), vec![Reply::Stop]);
}

#[test]
fn echo_ping_is_answered_and_refreshes_the_heartbeat() {
    let mut socket = MyWebSocket::new(0);
    assert_eq!(
        socket.handle(Ok(Frame::Ping(vec![9])), CLIENT_TIMEOUT),
        vec![Reply::Pong(vec![9])]
    );
    assert_eq!(socket.heartbeat(CLIENT_TIMEOUT + 1), vec![Reply::Ping]);
}

#[test]
fn echo_pong_refreshes_the_heartbeat_silently() {
    let mut socket = MyWebSocket::new(0);
    assert_eq!(socket.handle(Ok(Frame::Pong(vec![])), CLIENT_TIMEOUT), vec![]);
    assert_eq!(socket.heartbeat(CLIENT_TIMEOUT + 1), vec![Reply::Ping]);
}

#[test]
fn echo_close_is_acknowledged() {
    let mut socket = MyWebSocket::new(0);
    let reason = Some(CloseReason { code: 1000, description: Some("bye".to_owned()) });
    assert_eq!(
        socket.handle(Ok(Frame::Close(reason)), 1),
        vec![
            Reply::Close(Some(CloseReason { code: 1000, description: Some("bye".to_owned()) })),
            Reply::Stop
        ]
    );
}

#[test]
fn echo_stops_on_anything_else() {
    let mut socket = MyWebSocket::new(0);
    assert_eq!(socket.handle(Err(ProtocolError), 1), vec![Reply::Stop]);
    assert_eq!(socket.handle(Ok(Frame::Continuation), 1), vec![Reply::Stop]);
    assert_eq!(socket.handle(Ok(Frame::Nop), 1), vec![Reply::Stop]);
}
