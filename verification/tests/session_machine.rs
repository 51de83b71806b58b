use reversi::message::{ClientMessage, Connect, Disconnect, ServerMessage};
use reversi::server::ClientMessageWrapper;
use reversi::session::{
    Frame, SessionAction, UserStatus, WsGameSession, AUTHENTICATION_REQUIRED, BINARY_NOT_SUPPORTED,
    CLIENT_TIMEOUT_MS, CONNECTED, HEARTBEAT_INTERVAL_MS, INVALID_FORMAT, NOT_SUPPORTED,
};

fn error(text: &str) -> SessionAction {
    SessionAction::Send(ServerMessage::Error { message: text.to_string() })
}

fn success(text: &str) -> SessionAction {
    SessionAction::Send(ServerMessage::Success { message: text.to_string() })
}

fn text(json: &str) -> Frame {
    Frame::Text(json.to_string())
}

fn authenticated(name: &str) -> WsGameSession {
    let mut session = WsGameSession::with_id("s1".to_string(), 0);
    session.started();
    let request = format!("{{\"type\":\"authenticate\",\"payload\":{{\"username\":\"{}\"}}}}", name);
    session.handle(text(&request), 0);
    assert_eq!(session.username, Some(name.to_string()));
    session
}

#[test]
fn the_timing_of_a_session() {
    assert_eq!(HEARTBEAT_INTERVAL_MS, 5000);
    assert_eq!(CLIENT_TIMEOUT_MS, 10000);
}

#[test]
fn a_new_session_waits_for_its_handshake() {
    let session = WsGameSession::with_id("s1".to_string(), 17);
    assert_eq!(
        session,
        WsGameSession {
            id: "s1".to_string(),
            last_heartbeat: 17,
            username: None,
            status: UserStatus::Connecting,
        }
    );
}

#[test]
fn a_new_session_gets_a_fresh_id() {
    let first = WsGameSession::new(5);
    let second = WsGameSession::new(5);
    assert_eq!(first.id.len(), 36);
    assert_eq!(second.id.len(), 36);
    assert_ne!(first.id, second.id);
    assert_eq!(first.last_heartbeat, 5);
    assert_eq!(first.username, None);
    assert_eq!(first.status, UserStatus::Connecting);
    assert_eq!(first.id.chars().filter(|c| *c == '-').count(), 4);
}

#[test]
fn the_handshake_puts_the_session_online() {
    let mut session = WsGameSession::with_id("s1".to_string(), 0);
    let actions = session.started();
    assert_eq!(
        actions,
        vec![
            SessionAction::ScheduleHeartbeat(5000),
            success("Connected Successfully. Authentication is required."),
        ]
    );
    assert_eq!(CONNECTED, "Connected Successfully. Authentication is required.");
    assert_eq!(session.status, UserStatus::Online);
    assert_eq!(session.username, None);
}

#[test]
fn authenticating_makes_the_session_known() {
    let mut session = WsGameSession::with_id("s1".to_string(), 0);
    session.started();
    let actions =
        session.handle(text("{\"type\":\"authenticate\",\"payload\":{\"username\":\"alice\"}}"), 40);
    assert_eq!(
        actions,
        vec![
            success("Authenticated successfully. Hello alice!"),
            SessionAction::Connect(Connect {
                session_id: "s1".to_string(),
                username: "alice".to_string(),
            }),
        ]
    );
    assert_eq!(session.username, Some("alice".to_string()));
    assert_eq!(session.status, UserStatus::Idle);
    assert_eq!(session.last_heartbeat, 40);
}

#[test]
fn a_name_keeps_its_spaces() {
    let mut session = WsGameSession::with_id("s1".to_string(), 0);
    let actions = session.dispatch(ClientMessage::Authenticate { username: " al ice ".to_string() });
    assert_eq!(
        actions,
        vec![
            success("Authenticated successfully. Hello  al ice !"),
            SessionAction::Connect(Connect {
                session_id: "s1".to_string(),
                username: " al ice ".to_string(),
            }),
        ]
    );
}

#[test]
fn a_blank_name_is_refused() {
    for name in ["", " ", "  \t\n ", "\u{a0}\u{3000}"] {
        let mut session = WsGameSession::with_id("s1".to_string(), 0);
        session.started();
        let actions = session.dispatch(ClientMessage::Authenticate { username: name.to_string() });
        assert_eq!(actions, vec![error("Invalid format received. JSON required.")]);
        assert_eq!(session.username, None);
        assert_eq!(session.status, UserStatus::Online);
    }
}

#[test]
fn a_second_authenticate_is_refused() {
    let mut session = authenticated("alice");
    let actions =
        session.handle(text("{\"type\":\"authenticate\",\"payload\":{\"username\":\"mallory\"}}"), 1);
    assert_eq!(actions, vec![error("This message type is not supported.")]);
    assert_eq!(NOT_SUPPORTED, "This message type is not supported.");
    assert_eq!(session.username, Some("alice".to_string()));
    assert_eq!(session.status, UserStatus::Idle);
}

#[test]
fn nothing_is_forwarded_before_the_client_has_authenticated() {
    for request in [
        "{\"type\":\"join_queue\"}",
        "{\"type\":\"leave_queue\"}",
        "{\"type\":\"make_move\",\"payload\":{\"x\":2,\"y\":3}}",
        "{\"type\":\"resign\"}",
        "{\"type\":\"heartbeat\"}",
    ] {
        let mut session = WsGameSession::with_id("s1".to_string(), 0);
        session.started();
        let actions = session.handle(text(request), 3);
        assert_eq!(actions, vec![error("Authentication required.")]);
        assert_eq!(session.status, UserStatus::Online);
    }
    assert_eq!(AUTHENTICATION_REQUIRED, "Authentication required.");
}

#[test]
fn the_requests_of_an_authenticated_client_are_forwarded() {
    let cases = vec![
        ("{\"type\":\"join_queue\"}", ClientMessage::JoinQueue),
        ("{\"type\":\"leave_queue\"}", ClientMessage::LeaveQueue),
        ("{\"type\":\"make_move\",\"payload\":{\"x\":2,\"y\":3}}", ClientMessage::MakeMove { x: 2, y: 3 }),
        ("{\"type\":\"resign\"}", ClientMessage::Resign),
        ("{\"type\":\"heartbeat\"}", ClientMessage::Heartbeat),
    ];
    for (request, message) in cases {
        let mut session = authenticated("alice");
        let actions = session.handle(text(request), 9);
        assert_eq!(
            actions,
            vec![SessionAction::Forward(ClientMessageWrapper {
                session_id: "s1".to_string(),
                message,
            })]
        );
        assert_eq!(session.status, UserStatus::Idle);
        assert_eq!(session.last_heartbeat, 9);
    }
}

#[test]
fn a_text_that_is_no_message_is_answered_with_an_error() {
    for request in ["", "not json", "{\"type\":\"dance\"}", "{\"type\":\"make_move\"}", "[]"] {
        let mut session = authenticated("alice");
        let actions = session.handle(text(request), 12);
        assert_eq!(actions, vec![error("Invalid format received. JSON required.")]);
        assert_eq!(session.last_heartbeat, 12);
        assert_eq!(session.status, UserStatus::Idle);
    }
    let mut session = WsGameSession::with_id("s1".to_string(), 0);
    assert_eq!(session.handle(text("{"), 1), vec![error(INVALID_FORMAT)]);
}

#[test]
fn a_binary_frame_is_answered_with_an_error() {
    let mut session = authenticated("alice");
    let actions = session.handle(Frame::Binary, 77);
    assert_eq!(actions, vec![error("Binary message is not supported.")]);
    assert_eq!(BINARY_NOT_SUPPORTED, "Binary message is not supported.");
    assert_eq!(session.last_heartbeat, 0);
}

#[test]
fn a_ping_is_answered_with_a_pong_of_its_payload() {
    let mut session = WsGameSession::with_id("s1".to_string(), 0);
    let actions = session.handle(Frame::Ping(vec![1, 2, 3]), 500);
    assert_eq!(actions, vec![SessionAction::Pong(vec![1, 2, 3])]);
    assert_eq!(session.last_heartbeat, 500);
}

#[test]
fn a_pong_shows_that_the_client_is_alive() {
    let mut session = WsGameSession::with_id("s1".to_string(), 0);
    assert_eq!(session.handle(Frame::Pong, 900), vec![]);
    assert_eq!(session.last_heartbeat, 900);
    assert_eq!(session.handle(Frame::Other, 1000), vec![]);
    assert_eq!(session.last_heartbeat, 900);
}

#[test]
fn a_client_that_is_heard_of_is_pinged() {
    let mut session = WsGameSession::with_id("s1".to_string(), 1000);
    assert_eq!(session.heartbeat(1000), vec![SessionAction::Ping]);
    assert_eq!(session.heartbeat(6000), vec![SessionAction::Ping]);
    assert_eq!(session.heartbeat(11000), vec![SessionAction::Ping]);
    assert_eq!(session.heartbeat(500), vec![SessionAction::Ping]);
    assert_eq!(session.status, UserStatus::Connecting);
}

#[test]
fn a_silent_client_is_given_up() {
    let mut session = authenticated("alice");
    session.handle(Frame::Pong, 1000);
    let actions = session.heartbeat(11001);
    assert_eq!(
        actions,
        vec![
            SessionAction::Disconnect(Disconnect { session_id: "s1".to_string() }),
            SessionAction::Stop,
        ]
    );
    assert_eq!(session.status, UserStatus::Offline);
}

#[test]
fn a_timeout_takes_leave_once() {
    let mut session = authenticated("alice");
    let mut leaves = 0;
    let mut steps = session.heartbeat(10001);
    steps.extend(session.stopping());
    steps.extend(session.stopping());
    for action in steps.iter() {
        if matches!(action, SessionAction::Disconnect(_)) {
            leaves += 1;
        }
    }
    assert_eq!(leaves, 1);
    assert_eq!(session.stopping(), vec![]);
    assert_eq!(session.status, UserStatus::Offline);
}

#[test]
fn closing_the_socket_stops_the_session() {
    let mut session = authenticated("alice");
    assert_eq!(session.handle(Frame::Close, 5), vec![SessionAction::Close, SessionAction::Stop]);
    assert_eq!(session.status, UserStatus::Idle);
    assert_eq!(
        session.stopping(),
        vec![SessionAction::Disconnect(Disconnect { session_id: "s1".to_string() })]
    );
    assert_eq!(session.status, UserStatus::Offline);
    assert_eq!(session.stopping(), vec![]);
}

#[test]
fn an_offline_session_does_nothing() {
    let mut session = authenticated("alice");
    session.stopping();
    let before = WsGameSession {
        id: "s1".to_string(),
        last_heartbeat: 0,
        username: Some("alice".to_string()),
        status: UserStatus::Offline,
    };
    assert_eq!(session, before);
    assert_eq!(session.started(), vec![]);
    assert_eq!(session.heartbeat(99999), vec![]);
    assert_eq!(session.handle(Frame::Ping(vec![1]), 7), vec![]);
    assert_eq!(session.handle(text("{\"type\":\"join_queue\"}"), 8), vec![]);
    assert_eq!(session.handle(Frame::Close, 9), vec![]);
    assert_eq!(session.dispatch(ClientMessage::Resign), vec![]);
    assert_eq!(session.stopping(), vec![]);
    assert_eq!(session, before);
}

#[test]
fn a_session_that_stops_takes_leave() {
    let mut session = authenticated("alice");
    assert_eq!(
        session.stopping(),
        vec![SessionAction::Disconnect(Disconnect { session_id: "s1".to_string() })]
    );
    assert_eq!(session.status, UserStatus::Offline);
    let mut fresh = WsGameSession::with_id("s2".to_string(), 0);
    assert_eq!(
        fresh.stopping(),
        vec![SessionAction::Disconnect(Disconnect { session_id: "s2".to_string() })]
    );
}

#[test]
fn telling_the_client_of_a_success_or_an_error() {
    let session = WsGameSession::with_id("s1".to_string(), 0);
    assert_eq!(session.send_success("done"), success("done"));
    assert_eq!(session.send_error("failed"), error("failed"));
}
