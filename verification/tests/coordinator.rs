use reversi::message::{ClientMessage, Connect, Disconnect, SendMessage, ServerMessage};
use reversi::server::{
    ClientMessageWrapper, GameServer, Outbound, ServerEvent, ALREADY_IN_GAME, ALREADY_IN_QUEUE, DEFAULT_RATING, GAME_COMPLETED, GAME_NOT_FOUND,
    JOINED_QUEUE, LEFT_QUEUE, LOGGED_IN_ELSEWHERE, MATCHMAKING_INTERVAL_MS, MATCH_TIMED_OUT,
    MATCH_TIMEOUT_MS, NOT_IN_GAME, NOT_IN_QUEUE, OPPONENT_DISCONNECTED, SESSION_NOT_FOUND,
};
use reversi::session::UserStatus;

fn wire(rows: [&str; 8]) -> Vec<Vec<Option<String>>> {
    let mut board = Vec::new();
    for row in rows.iter() {
        let mut cells = Vec::new();
        for c in row.chars() {
            cells.push(match c {
                'B' => Some("black".to_string()),
                'W' => Some("white".to_string()),
                _ => None,
            });
        }
        board.push(cells);
    }
    board
}

fn opening() -> Vec<Vec<Option<String>>> {
    wire([
        "........",
        "........",
        "........",
        "...WB...",
        "...BW...",
        "........",
        "........",
        "........",
    ])
}

fn to(session: &str, message: ServerMessage) -> Outbound {
    Outbound { session_id: session.to_string(), message }
}

fn success(text: &str) -> ServerMessage {
    ServerMessage::Success { message: text.to_string() }
}

fn error(text: &str) -> ServerMessage {
    ServerMessage::Error { message: text.to_string() }
}

fn state(board: Vec<Vec<Option<String>>>, current: &str, yours: &str) -> ServerMessage {
    ServerMessage::GameState {
        board,
        current_player: current.to_string(),
        your_color: yours.to_string(),
    }
}

fn over(winner: Option<&str>, reason: &str) -> ServerMessage {
    ServerMessage::GameOver { winner: winner.map(|w| w.to_string()), reason: reason.to_string() }
}

fn connect(server: &mut GameServer, session: &str, name: &str) -> Vec<Outbound> {
    server.handle_connect(Connect { session_id: session.to_string(), username: name.to_string() })
}

fn disconnect(server: &mut GameServer, session: &str) -> Vec<Outbound> {
    server.handle_disconnect(Disconnect { session_id: session.to_string() })
}

fn request(server: &mut GameServer, session: &str, message: ClientMessage, now: u64) -> Vec<Outbound> {
    server.handle_client_message_at(
        ClientMessageWrapper { session_id: session.to_string(), message },
        now,
    )
}

fn play(server: &mut GameServer, session: &str, x: usize, y: usize) -> Vec<Outbound> {
    request(server, session, ClientMessage::MakeMove { x, y }, 0)
}

fn alice_and_bob_in_a_game() -> GameServer {
    let mut server = GameServer::new();
    connect(&mut server, "s1", "alice");
    connect(&mut server, "s2", "bob");
    request(&mut server, "s1", ClientMessage::JoinQueue, 10);
    request(&mut server, "s2", ClientMessage::JoinQueue, 20);
    server.run_matchmaking_at(100);
    server
}

#[test]
fn the_constants_of_the_coordinator() {
    assert_eq!(MATCH_TIMEOUT_MS, 30000);
    assert_eq!(MATCHMAKING_INTERVAL_MS, 1000);
    assert_eq!(DEFAULT_RATING, 1000);
    assert_eq!(
        LOGGED_IN_ELSEWHERE,
        "Your account has been logged in from another device or location.\n                            If this wasn't you, please secure your account immediately."
    );
    assert_eq!(JOINED_QUEUE, "Joined matchmaking queue. Searching for opponent...");
    assert_eq!(LEFT_QUEUE, "Left matchmaking queue");
    assert_eq!(ALREADY_IN_QUEUE, "Already in matchmaking queue");
    assert_eq!(ALREADY_IN_GAME, "Already in a game");
    assert_eq!(SESSION_NOT_FOUND, "User session not found");
    assert_eq!(NOT_IN_QUEUE, "Not in matchmaking queue");
    assert_eq!(NOT_IN_GAME, "You are not in a game");
    assert_eq!(GAME_NOT_FOUND, "Game not found");
    assert_eq!(GAME_COMPLETED, "Game completed");
    assert_eq!(OPPONENT_DISCONNECTED, "Opponent disconnected");
    assert_eq!(MATCH_TIMED_OUT, "Match timed out. Please join the queue again.");
}

#[test]
fn a_new_coordinator_knows_nobody() {
    let server = GameServer::new();
    assert_eq!(server.session_count(), 0);
    assert_eq!(server.active_game_count(), 0);
    assert_eq!(server.username_of("s1"), None);
    assert_eq!(server.session_of("alice"), None);
    assert_eq!(server.status_of("s1"), None);
    assert_eq!(server.game_of("s1"), None);
    assert!(!server.is_queued("s1"));
}

#[test]
fn a_login_is_told_to_every_other_session() {
    let mut server = GameServer::new();
    assert_eq!(connect(&mut server, "s1", "alice"), vec![]);
    assert_eq!(
        connect(&mut server, "s2", "bob"),
        vec![to("s1", success("User bob has logged in"))]
    );
    assert_eq!(
        connect(&mut server, "s3", "carol"),
        vec![
            to("s1", success("User carol has logged in")),
            to("s2", success("User carol has logged in")),
        ]
    );
    assert_eq!(server.session_count(), 3);
    assert_eq!(server.username_of("s2"), Some(&"bob".to_string()));
    assert_eq!(server.session_of("bob"), Some(&"s2".to_string()));
}

#[test]
fn a_user_has_one_session_at_a_time() {
    let mut server = GameServer::new();
    connect(&mut server, "s1", "alice");
    connect(&mut server, "s2", "bob");
    let sent = connect(&mut server, "s3", "alice");
    assert_eq!(
        sent,
        vec![
            to("s1", error(LOGGED_IN_ELSEWHERE)),
            to("s2", success("User alice has logged in")),
        ]
    );
    assert_eq!(server.session_count(), 2);
    assert_eq!(server.username_of("s1"), None);
    assert_eq!(server.username_of("s3"), Some(&"alice".to_string()));
    assert_eq!(server.session_of("alice"), Some(&"s3".to_string()));
    assert_eq!(disconnect(&mut server, "s1"), vec![]);
    assert_eq!(server.session_of("alice"), Some(&"s3".to_string()));
}

#[test]
fn the_game_of_an_evicted_session_goes_on() {
    let mut server = alice_and_bob_in_a_game();
    connect(&mut server, "s3", "alice");
    assert_eq!(server.active_game_count(), 1);
    assert!(server.game_of("s1").is_some());
    let sent = play(&mut server, "s1", 2, 3);
    assert_eq!(sent.len(), 1);
    assert_eq!(sent[0].session_id, "s2");
}

#[test]
fn a_logout_is_told_to_every_session_that_is_left() {
    let mut server = GameServer::new();
    connect(&mut server, "s1", "alice");
    connect(&mut server, "s2", "bob");
    connect(&mut server, "s3", "carol");
    request(&mut server, "s2", ClientMessage::JoinQueue, 0);
    assert_eq!(
        disconnect(&mut server, "s2"),
        vec![
            to("s1", success("User bob has logged out")),
            to("s3", success("User bob has logged out")),
        ]
    );
    assert_eq!(server.session_count(), 2);
    assert_eq!(server.username_of("s2"), None);
    assert_eq!(server.session_of("bob"), None);
    assert_eq!(server.status_of("s2"), None);
    assert!(!server.is_queued("s2"));
}

#[test]
fn a_second_leave_of_the_same_session_does_nothing() {
    let mut server = alice_and_bob_in_a_game();
    let first = disconnect(&mut server, "s1");
    assert_eq!(first.len(), 2);
    let sessions = server.session_count();
    let games = server.active_game_count();
    assert_eq!(disconnect(&mut server, "s1"), vec![]);
    assert_eq!(server.session_count(), sessions);
    assert_eq!(server.active_game_count(), games);
    assert_eq!(server.status_of("s2"), Some(UserStatus::Idle));
    assert_eq!(server.game_of("s2"), None);
    assert_eq!(server.username_of("s2"), Some(&"bob".to_string()));
    assert_eq!(disconnect(&mut server, "never connected"), vec![]);
}

#[test]
fn joining_the_queue() {
    let mut server = GameServer::new();
    connect(&mut server, "s1", "alice");
    assert_eq!(
        request(&mut server, "s1", ClientMessage::JoinQueue, 5),
        vec![to("s1", success("Joined matchmaking queue. Searching for opponent..."))]
    );
    assert!(server.is_queued("s1"));
    assert_eq!(server.status_of("s1"), Some(UserStatus::SearchingMatch));
    assert_eq!(
        request(&mut server, "s1", ClientMessage::JoinQueue, 6),
        vec![to("s1", error("Already in matchmaking queue"))]
    );
    assert!(server.is_queued("s1"));
    assert_eq!(server.status_of("s1"), Some(UserStatus::SearchingMatch));
}

#[test]
fn a_session_that_is_not_connected_cannot_join_and_is_told_nothing() {
    let mut server = GameServer::new();
    assert_eq!(request(&mut server, "s1", ClientMessage::JoinQueue, 5), vec![]);
    assert!(!server.is_queued("s1"));
    assert_eq!(server.status_of("s1"), None);
}

#[test]
fn leaving_the_queue_through_the_coordinator() {
    let mut server = GameServer::new();
    connect(&mut server, "s1", "alice");
    request(&mut server, "s1", ClientMessage::JoinQueue, 5);
    assert_eq!(
        request(&mut server, "s1", ClientMessage::LeaveQueue, 6),
        vec![to("s1", success("Left matchmaking queue"))]
    );
    assert!(!server.is_queued("s1"));
    assert_eq!(server.status_of("s1"), Some(UserStatus::Idle));
}

#[test]
fn leaving_a_queue_one_is_not_in_is_refused_and_changes_nothing() {
    let mut server = GameServer::new();
    connect(&mut server, "s1", "alice");
    connect(&mut server, "s2", "bob");
    request(&mut server, "s2", ClientMessage::JoinQueue, 5);
    assert_eq!(
        request(&mut server, "s1", ClientMessage::LeaveQueue, 6),
        vec![to("s1", error("Not in matchmaking queue"))]
    );
    assert!(server.is_queued("s2"));
    assert!(!server.is_queued("s1"));
    assert_eq!(server.status_of("s1"), None);
    assert_eq!(server.status_of("s2"), Some(UserStatus::SearchingMatch));
    assert_eq!(
        request(&mut server, "s1", ClientMessage::LeaveQueue, 7),
        vec![to("s1", error("Not in matchmaking queue"))]
    );
    assert!(server.is_queued("s2"));
}

#[test]
fn a_heartbeat_and_an_authenticate_are_no_work_for_the_coordinator() {
    let mut server = alice_and_bob_in_a_game();
    assert_eq!(request(&mut server, "s1", ClientMessage::Heartbeat, 1), vec![]);
    assert_eq!(
        request(&mut server, "s1", ClientMessage::Authenticate { username: "eve".to_string() }, 1),
        vec![]
    );
    assert_eq!(server.username_of("s1"), Some(&"alice".to_string()));
    assert_eq!(server.status_of("s1"), Some(UserStatus::InGame));
}

#[test]
fn the_tick_pairs_the_two_who_wait_and_starts_their_game() {
    let mut server = GameServer::new();
    connect(&mut server, "s1", "alice");
    connect(&mut server, "s2", "bob");
    request(&mut server, "s1", ClientMessage::JoinQueue, 10);
    assert_eq!(server.run_matchmaking_at(50), vec![]);
    assert!(server.is_queued("s1"));
    request(&mut server, "s2", ClientMessage::JoinQueue, 60);
    let sent = server.run_matchmaking_at(100);
    assert_eq!(
        sent,
        vec![
            to("s1", ServerMessage::MatchFound { opponent: "bob".to_string() }),
            to("s1", state(opening(), "black", "black")),
            to("s2", ServerMessage::MatchFound { opponent: "alice".to_string() }),
            to("s2", state(opening(), "black", "white")),
        ]
    );
    assert!(!server.is_queued("s1"));
    assert!(!server.is_queued("s2"));
    assert_eq!(server.active_game_count(), 1);
    assert_eq!(server.status_of("s1"), Some(UserStatus::InGame));
    assert_eq!(server.status_of("s2"), Some(UserStatus::InGame));
    let game = server.game_of("s1").unwrap().clone();
    assert_eq!(server.game_of("s2"), Some(&game));
    assert_eq!(game.len(), 36);
    assert_eq!(server.run_matchmaking_at(200), vec![]);
}

#[test]
fn the_tick_pairs_in_the_order_of_joining() {
    let mut server = GameServer::new();
    for (id, name) in [("s1", "a"), ("s2", "b"), ("s3", "c"), ("s4", "d"), ("s5", "e")] {
        connect(&mut server, id, name);
    }
    for id in ["s3", "s1", "s5", "s2", "s4"] {
        request(&mut server, id, ClientMessage::JoinQueue, 0);
    }
    let sent = server.run_matchmaking_at(1);
    assert_eq!(sent.len(), 8);
    assert_eq!(sent[0], to("s3", ServerMessage::MatchFound { opponent: "a".to_string() }));
    assert_eq!(sent[2], to("s1", ServerMessage::MatchFound { opponent: "c".to_string() }));
    assert_eq!(sent[4], to("s5", ServerMessage::MatchFound { opponent: "b".to_string() }));
    assert_eq!(sent[6], to("s2", ServerMessage::MatchFound { opponent: "e".to_string() }));
    assert_eq!(server.active_game_count(), 2);
    assert!(server.is_queued("s4"));
    assert_eq!(server.game_of("s3"), server.game_of("s1"));
    assert_eq!(server.game_of("s5"), server.game_of("s2"));
    assert_ne!(server.game_of("s3"), server.game_of("s5"));
    assert_eq!(server.game_of("s4"), None);
}

#[test]
fn the_opening_move_is_shown_to_both_players() {
    let mut server = alice_and_bob_in_a_game();
    let after = wire([
        "........",
        "........",
        "........",
        "..BBB...",
        "...BW...",
        "........",
        "........",
        "........",
    ]);
    assert_eq!(
        play(&mut server, "s1", 2, 3),
        vec![
            to("s1", state(after.clone(), "white", "black")),
            to("s2", state(after, "white", "white")),
        ]
    );
    assert_eq!(server.active_game_count(), 1);
    assert_eq!(server.status_of("s1"), Some(UserStatus::InGame));
}

#[test]
fn an_illegal_move_is_refused_to_the_mover_alone() {
    let mut server = alice_and_bob_in_a_game();
    assert_eq!(play(&mut server, "s1", 0, 0), vec![to("s1", error("Invalid move"))]);
    assert_eq!(server.active_game_count(), 1);
    assert_eq!(server.status_of("s1"), Some(UserStatus::InGame));
    let sent = play(&mut server, "s1", 2, 3);
    assert_eq!(sent.len(), 2);
    assert_eq!(sent[0].session_id, "s1");
}

#[test]
fn a_move_out_of_turn_is_refused_by_the_coordinator() {
    let mut server = alice_and_bob_in_a_game();
    assert_eq!(play(&mut server, "s2", 2, 4), vec![to("s2", error("It's not your turn"))]);
    assert_eq!(play(&mut server, "s1", 9, 9), vec![to("s1", error("Invalid coordinates"))]);
}

#[test]
fn a_session_without_a_game_can_neither_move_nor_resign() {
    let mut server = GameServer::new();
    connect(&mut server, "s1", "alice");
    assert_eq!(play(&mut server, "s1", 2, 3), vec![to("s1", error("You are not in a game"))]);
    assert_eq!(
        request(&mut server, "s1", ClientMessage::Resign, 0),
        vec![to("s1", error("You are not in a game"))]
    );
    assert_eq!(play(&mut server, "s9", 2, 3), vec![]);
}

#[test]
fn a_resignation_ends_the_game_for_both() {
    let mut server = alice_and_bob_in_a_game();
    play(&mut server, "s1", 2, 3);
    let board = wire([
        "........",
        "........",
        "........",
        "..BBB...",
        "...BW...",
        "........",
        "........",
        "........",
    ]);
    assert_eq!(
        request(&mut server, "s2", ClientMessage::Resign, 0),
        vec![
            to("s1", state(board.clone(), "white", "black")),
            to("s2", state(board, "white", "white")),
            to("s1", over(Some("alice"), "Game completed")),
            to("s2", over(Some("alice"), "Game completed")),
        ]
    );
    assert_eq!(server.active_game_count(), 0);
    assert_eq!(server.game_of("s1"), None);
    assert_eq!(server.game_of("s2"), None);
    assert_eq!(server.status_of("s1"), Some(UserStatus::Idle));
    assert_eq!(server.status_of("s2"), Some(UserStatus::Idle));
    assert_eq!(
        request(&mut server, "s2", ClientMessage::Resign, 0),
        vec![to("s2", error("You are not in a game"))]
    );
}

#[test]
fn a_player_who_goes_loses_the_game() {
    let mut server = alice_and_bob_in_a_game();
    assert_eq!(
        disconnect(&mut server, "s1"),
        vec![
            to("s2", over(Some("bob"), "Opponent disconnected")),
            to("s2", success("User alice has logged out")),
        ]
    );
    assert_eq!(server.active_game_count(), 0);
    assert_eq!(server.game_of("s1"), None);
    assert_eq!(server.game_of("s2"), None);
    assert_eq!(server.status_of("s2"), Some(UserStatus::Idle));
    assert_eq!(server.status_of("s1"), None);
    assert_eq!(server.session_count(), 1);
}

#[test]
fn the_white_player_who_goes_loses_the_game_too() {
    let mut server = alice_and_bob_in_a_game();
    assert_eq!(
        disconnect(&mut server, "s2"),
        vec![
            to("s1", over(Some("alice"), "Opponent disconnected")),
            to("s1", success("User bob has logged out")),
        ]
    );
    assert_eq!(server.active_game_count(), 0);
}

#[test]
fn a_game_that_nobody_can_go_on_with_ends_by_the_count() {
    let mut server = alice_and_bob_in_a_game();
    let moves = [
        ("s1", 3, 2),
        ("s2", 2, 2),
        ("s1", 1, 2),
        ("s2", 3, 1),
        ("s1", 4, 0),
        ("s2", 3, 5),
        ("s1", 3, 6),
        ("s2", 4, 2),
    ];
    for (session, x, y) in moves {
        let sent = play(&mut server, session, x, y);
        assert_eq!(sent.len(), 2);
        assert!(matches!(sent[0].message, ServerMessage::GameState { .. }));
        assert!(matches!(sent[1].message, ServerMessage::GameState { .. }));
    }
    let last = wire([
        "....B...",
        "...B....",
        ".BBBB...",
        "...BBB..",
        "...BB...",
        "...B....",
        "...B....",
        "........",
    ]);
    assert_eq!(
        play(&mut server, "s1", 5, 3),
        vec![
            to("s1", state(last.clone(), "black", "black")),
            to("s2", state(last, "black", "white")),
            to("s1", over(Some("alice"), "Game completed")),
            to("s2", over(Some("alice"), "Game completed")),
        ]
    );
    assert_eq!(server.active_game_count(), 0);
    assert_eq!(server.game_of("s1"), None);
    assert_eq!(server.game_of("s2"), None);
    assert_eq!(server.status_of("s1"), Some(UserStatus::Idle));
    assert_eq!(server.status_of("s2"), Some(UserStatus::Idle));
}

#[test]
fn each_player_gets_one_snapshot_for_each_move_in_order() {
    let mut server = alice_and_bob_in_a_game();
    let mut for_alice = Vec::new();
    let mut for_bob = Vec::new();
    for (session, x, y) in [("s1", 3, 2), ("s2", 2, 2), ("s1", 1, 2)] {
        for sent in play(&mut server, session, x, y) {
            if sent.session_id == "s1" {
                for_alice.push(sent.message);
            } else {
                assert_eq!(sent.session_id, "s2");
                for_bob.push(sent.message);
            }
        }
    }
    assert_eq!(for_alice.len(), 3);
    assert_eq!(for_bob.len(), 3);
    let turns = ["white", "black", "white"];
    for i in 0..3 {
        match (&for_alice[i], &for_bob[i]) {
            (
                ServerMessage::GameState { board: a, current_player: ca, your_color: ya },
                ServerMessage::GameState { board: b, current_player: cb, your_color: yb },
            ) => {
                assert_eq!(a, b);
                assert_eq!(ca, turns[i]);
                assert_eq!(cb, turns[i]);
                assert_eq!(ya, "black");
                assert_eq!(yb, "white");
            }
            _ => panic!("a snapshot of the game was expected"),
        }
    }
}

#[test]
fn the_players_of_a_running_game_are_not_timed_out() {
    let mut server = alice_and_bob_in_a_game();
    assert_eq!(server.run_matchmaking_at(30100), vec![]);
    assert_eq!(server.run_matchmaking_at(30101), vec![]);
    assert_eq!(server.run_matchmaking_at(600000), vec![]);
    assert_eq!(server.status_of("s1"), Some(UserStatus::InGame));
    assert_eq!(server.status_of("s2"), Some(UserStatus::InGame));
    assert_eq!(server.active_game_count(), 1);
    let sent = play(&mut server, "s1", 2, 3);
    assert_eq!(sent.len(), 2);
}

#[test]
fn no_session_waits_and_plays_at_once_after_a_tick() {
    let mut server = GameServer::new();
    for (id, name) in [("s1", "a"), ("s2", "b"), ("s3", "c")] {
        connect(&mut server, id, name);
        request(&mut server, id, ClientMessage::JoinQueue, 0);
    }
    server.run_matchmaking_at(1);
    for id in ["s1", "s2", "s3"] {
        assert!(!(server.is_queued(id) && server.game_of(id).is_some()));
    }
    assert!(server.game_of("s1").is_some());
    assert!(server.game_of("s2").is_some());
    assert!(server.is_queued("s3"));
}

#[test]
fn a_user_is_listed_exactly_while_a_session_has_their_name() {
    let mut server = GameServer::new();
    connect(&mut server, "s1", "alice");
    connect(&mut server, "s2", "bob");
    assert_eq!(server.session_of("alice"), Some(&"s1".to_string()));
    assert_eq!(server.session_of("bob"), Some(&"s2".to_string()));
    assert_eq!(server.session_of("carol"), None);
    connect(&mut server, "s3", "alice");
    assert_eq!(server.session_of("alice"), Some(&"s3".to_string()));
    assert_eq!(server.username_of("s1"), None);
    disconnect(&mut server, "s3");
    assert_eq!(server.session_of("alice"), None);
    disconnect(&mut server, "s2");
    assert_eq!(server.session_of("bob"), None);
    assert_eq!(server.session_count(), 0);
}

#[test]
fn the_coordinator_works_by_its_own_clock_too() {
    let mut server = GameServer::new();
    connect(&mut server, "s1", "alice");
    connect(&mut server, "s2", "bob");
    assert_eq!(
        server.handle_client_message(ClientMessageWrapper {
            session_id: "s1".to_string(),
            message: ClientMessage::JoinQueue,
        }),
        vec![to("s1", success("Joined matchmaking queue. Searching for opponent..."))]
    );
    server.handle_client_message(ClientMessageWrapper {
        session_id: "s2".to_string(),
        message: ClientMessage::JoinQueue,
    });
    let sent = server.run_matchmaking();
    assert_eq!(sent.len(), 4);
    assert_eq!(sent[0], to("s1", ServerMessage::MatchFound { opponent: "bob".to_string() }));
    assert_eq!(server.active_game_count(), 1);
    assert_eq!(server.run_matchmaking(), vec![]);
}

#[test]
fn a_drawn_game_has_no_winner() {
    let mut server = alice_and_bob_in_a_game();
    let moves = [
        (2, 3, "s1"), (4, 2, "s2"), (5, 1, "s1"), (2, 2, "s2"), (2, 4, "s1"), (1, 4, "s2"),
        (4, 5, "s1"), (3, 2, "s2"), (1, 3, "s1"), (5, 5, "s2"), (1, 2, "s1"), (3, 5, "s2"),
        (4, 6, "s1"), (3, 6, "s2"), (6, 4, "s1"), (6, 5, "s2"), (0, 5, "s1"), (1, 5, "s2"),
        (6, 6, "s1"), (1, 1, "s2"), (0, 6, "s1"), (5, 2, "s2"), (3, 7, "s1"), (5, 7, "s2"),
        (5, 3, "s1"), (2, 7, "s2"), (5, 6, "s1"), (6, 2, "s2"), (2, 1, "s1"), (6, 7, "s2"),
        (5, 4, "s1"), (3, 1, "s2"), (3, 0, "s1"), (7, 5, "s2"), (7, 7, "s1"), (4, 0, "s2"),
        (0, 1, "s1"), (2, 5, "s2"), (1, 0, "s1"), (1, 6, "s2"), (7, 1, "s1"), (0, 0, "s2"),
        (6, 3, "s1"), (2, 0, "s2"), (5, 0, "s1"), (7, 6, "s2"), (7, 4, "s1"), (4, 7, "s2"),
        (0, 4, "s1"), (6, 0, "s2"), (1, 7, "s1"), (0, 2, "s2"), (0, 3, "s1"), (6, 1, "s2"),
        (2, 6, "s1"), (0, 7, "s2"), (7, 3, "s1"), (7, 2, "s2"), (4, 1, "s1"), (7, 0, "s2"),
    ];
    let mut last = Vec::new();
    for (x, y, session) in moves {
        last = play(&mut server, session, x, y);
    }
    assert_eq!(last.len(), 4);
    assert!(matches!(last[0].message, ServerMessage::GameState { .. }));
    assert!(matches!(last[1].message, ServerMessage::GameState { .. }));
    assert_eq!(last[2], to("s1", over(None, "Game completed")));
    assert_eq!(last[3], to("s2", over(None, "Game completed")));
    assert_eq!(server.active_game_count(), 0);
}

#[test]
fn every_event_goes_through_one_door() {
    let mut server = GameServer::new();
    let announce = |id: &str, name: &str| {
        ServerEvent::Connect(Connect { session_id: id.to_string(), username: name.to_string() })
    };
    let ask = |id: &str, message: ClientMessage| {
        ServerEvent::ClientMessage(ClientMessageWrapper { session_id: id.to_string(), message })
    };
    assert_eq!(server.handle_at(announce("s1", "alice"), 0), vec![]);
    assert_eq!(
        server.handle(announce("s2", "bob")),
        vec![to("s1", success("User bob has logged in"))]
    );
    assert_eq!(
        server.handle_at(ask("s1", ClientMessage::JoinQueue), 5),
        vec![to("s1", success("Joined matchmaking queue. Searching for opponent..."))]
    );
    assert_eq!(
        server.handle(ask("s2", ClientMessage::JoinQueue)),
        vec![to("s2", success("Joined matchmaking queue. Searching for opponent..."))]
    );
    let sent = server.handle_at(ServerEvent::RunMatchmaking, 10);
    assert_eq!(sent.len(), 4);
    assert_eq!(sent[1], to("s1", state(opening(), "black", "black")));
    assert_eq!(server.handle(ServerEvent::RunMatchmaking), vec![]);
    assert_eq!(
        server.handle_at(ask("s2", ClientMessage::MakeMove { x: 2, y: 4 }), 11),
        vec![to("s2", error("It's not your turn"))]
    );
    assert_eq!(
        server.handle(ServerEvent::Disconnect(Disconnect { session_id: "s2".to_string() })),
        vec![
            to("s1", over(Some("alice"), "Opponent disconnected")),
            to("s1", success("User bob has logged out")),
        ]
    );
    assert_eq!(
        server.handle_at(ServerEvent::Disconnect(Disconnect { session_id: "s2".to_string() }), 12),
        vec![]
    );
    assert_eq!(server.session_count(), 1);
    assert_eq!(server.active_game_count(), 0);
}

#[test]
fn a_session_in_a_game_cannot_join_the_queue() {
    let mut server = alice_and_bob_in_a_game();
    let game = server.game_of("s1").cloned();
    assert_eq!(
        request(&mut server, "s1", ClientMessage::JoinQueue, 200),
        vec![to("s1", error("Already in a game"))]
    );
    assert_eq!(
        request(&mut server, "s2", ClientMessage::JoinQueue, 201),
        vec![to("s2", error("Already in a game"))]
    );
    assert!(!server.is_queued("s1"));
    assert!(!server.is_queued("s2"));
    assert_eq!(server.game_of("s1").cloned(), game);
    assert_eq!(server.status_of("s1"), Some(UserStatus::InGame));
    assert_eq!(server.run_matchmaking_at(300), vec![]);
    request(&mut server, "s1", ClientMessage::Resign, 301);
    assert_eq!(
        request(&mut server, "s1", ClientMessage::JoinQueue, 302),
        vec![to("s1", success("Joined matchmaking queue. Searching for opponent..."))]
    );
    assert!(server.is_queued("s1"));
}

#[test]
fn a_session_that_takes_another_name_gives_the_former_one_up() {
    let mut server = GameServer::new();
    connect(&mut server, "s1", "alice");
    connect(&mut server, "s2", "bob");
    assert_eq!(
        connect(&mut server, "s1", "carol"),
        vec![to("s2", success("User carol has logged in"))]
    );
    assert_eq!(server.username_of("s1"), Some(&"carol".to_string()));
    assert_eq!(server.session_of("carol"), Some(&"s1".to_string()));
    assert_eq!(server.session_of("alice"), None);
    assert_eq!(server.session_count(), 2);
    assert_eq!(
        connect(&mut server, "s3", "alice"),
        vec![
            to("s1", success("User alice has logged in")),
            to("s2", success("User alice has logged in")),
        ]
    );
    assert_eq!(server.session_of("alice"), Some(&"s3".to_string()));
    assert_eq!(server.session_count(), 3);
}

#[test]
fn a_session_that_takes_the_name_of_another_evicts_it_and_frees_its_own() {
    let mut server = GameServer::new();
    connect(&mut server, "s1", "alice");
    connect(&mut server, "s2", "bob");
    assert_eq!(connect(&mut server, "s1", "bob"), vec![to("s2", error(LOGGED_IN_ELSEWHERE))]);
    assert_eq!(server.session_count(), 1);
    assert_eq!(server.username_of("s1"), Some(&"bob".to_string()));
    assert_eq!(server.username_of("s2"), None);
    assert_eq!(server.session_of("bob"), Some(&"s1".to_string()));
    assert_eq!(server.session_of("alice"), None);
}

#[test]
fn a_session_that_announces_itself_again_is_not_evicted_by_itself() {
    let mut server = GameServer::new();
    connect(&mut server, "s1", "alice");
    connect(&mut server, "s2", "bob");
    assert_eq!(
        connect(&mut server, "s1", "alice"),
        vec![to("s2", success("User alice has logged in"))]
    );
    assert_eq!(server.session_count(), 2);
    assert_eq!(server.username_of("s1"), Some(&"alice".to_string()));
    assert_eq!(server.session_of("alice"), Some(&"s1".to_string()));
    assert_eq!(
        connect(&mut server, "s3", "carol"),
        vec![
            to("s1", success("User carol has logged in")),
            to("s2", success("User carol has logged in")),
        ]
    );
}

#[test]
fn a_message_is_put_into_a_mailbox_as_json_text() {
    let outbound = to("s1", over(Some("alice"), "Game completed"));
    assert_eq!(
        outbound.to_send_message(),
        Some(SendMessage {
            message: "{\"type\":\"game_over\",\"winner\":\"alice\",\"reason\":\"Game completed\"}"
                .to_string(),
        })
    );
}

#[test]
fn a_move_asked_of_the_coordinator_directly() {
    let mut server = alice_and_bob_in_a_game();
    let mut outbox = Vec::new();
    assert_eq!(
        server.handle_game_move("s1", 0, 0, &mut outbox),
        Err("Invalid move".to_string())
    );
    assert_eq!(outbox, vec![]);
    assert_eq!(
        server.handle_game_move("s3", 2, 3, &mut outbox),
        Err("You are not in a game".to_string())
    );
    assert_eq!(server.handle_game_move("s1", 2, 3, &mut outbox), Ok(()));
    assert_eq!(outbox.len(), 2);
    assert_eq!(outbox[0].session_id, "s1");
    assert_eq!(outbox[1].session_id, "s2");
    assert!(matches!(outbox[0].message, ServerMessage::GameState { .. }));
    assert!(matches!(outbox[1].message, ServerMessage::GameState { .. }));
}

#[test]
fn a_resignation_asked_of_the_coordinator_directly() {
    let mut server = alice_and_bob_in_a_game();
    connect(&mut server, "s3", "carol");
    let mut outbox = Vec::new();
    assert_eq!(
        server.handle_resign("s3", &mut outbox),
        Err("You are not in a game".to_string())
    );
    assert_eq!(server.handle_resign("s1", &mut outbox), Ok(()));
    let kinds: Vec<(&str, bool)> = outbox
        .iter()
        .map(|o| (o.session_id.as_str(), matches!(o.message, ServerMessage::GameOver { .. })))
        .collect();
    assert_eq!(kinds, vec![("s1", false), ("s2", false), ("s1", true), ("s2", true)]);
    assert_eq!(outbox[2], to("s1", over(Some("bob"), "Game completed")));
    assert_eq!(server.active_game_count(), 0);
}

#[test]
fn joining_and_leaving_asked_of_the_coordinator_directly() {
    let mut server = GameServer::new();
    connect(&mut server, "s1", "alice");
    let mut outbox = Vec::new();
    assert_eq!(server.remove_user_from_matchmaking("s1", &mut outbox), Err("Not in matchmaking queue"));
    assert_eq!(server.add_user_to_matchmaking("s9", 1, &mut outbox), Err("User session not found"));
    assert_eq!(server.add_user_to_matchmaking("s1", 1, &mut outbox), Ok(()));
    assert_eq!(server.add_user_to_matchmaking("s1", 2, &mut outbox), Err("Already in matchmaking queue"));
    assert_eq!(server.remove_user_from_matchmaking("s1", &mut outbox), Ok(()));
    assert_eq!(
        outbox,
        vec![
            to("s1", success("Joined matchmaking queue. Searching for opponent...")),
            to("s1", success("Left matchmaking queue")),
        ]
    );
    server.send_message_to_session("s1", success("hello"), &mut outbox);
    server.send_message_to_session("s2", success("dropped"), &mut outbox);
    assert_eq!(outbox.len(), 3);
    assert_eq!(outbox[2], to("s1", success("hello")));
}

#[test]
fn no_match_stays_pending_after_a_tick() {
    let mut server = GameServer::new();
    for (id, name) in [("s1", "a"), ("s2", "b"), ("s3", "c"), ("s4", "d")] {
        connect(&mut server, id, name);
        request(&mut server, id, ClientMessage::JoinQueue, 0);
    }
    assert_eq!(server.run_matchmaking_at(1).len(), 8);
    assert_eq!(server.pending_match_count(), 0);
    assert_eq!(server.active_game_count(), 2);
    assert_eq!(server.run_matchmaking_at(100000), vec![]);
    for id in ["s1", "s2", "s3", "s4"] {
        assert_eq!(server.status_of(id), Some(UserStatus::InGame));
    }
}
