use reversi::codec::{
    client_message_of_value, client_message_value, decode_client_message, decode_server_message,
    encode_client_message, encode_server_message, server_message_of_value, server_message_value,
};
use reversi::message::{clone_board, ClientMessage, ServerMessage};

fn sample_board() -> Vec<Vec<Option<String>>> {
    let mut board = vec![vec![None; 8]; 8];
    board[3][3] = Some("white".to_string());
    board[3][4] = Some("black".to_string());
    board[4][3] = Some("black".to_string());
    board[4][4] = Some("white".to_string());
    board
}

fn client_messages() -> Vec<ClientMessage> {
    vec![
        ClientMessage::Authenticate { username: "alice".to_string() },
        ClientMessage::Authenticate { username: "".to_string() },
        ClientMessage::Authenticate { username: "a \"quoted\" \\ name\n\u{e9}\u{1f600}".to_string() },
        ClientMessage::JoinQueue,
        ClientMessage::LeaveQueue,
        ClientMessage::MakeMove { x: 2, y: 3 },
        ClientMessage::MakeMove { x: 0, y: 7 },
        ClientMessage::MakeMove { x: usize::MAX, y: 0 },
        ClientMessage::Resign,
        ClientMessage::Heartbeat,
    ]
}

fn server_messages() -> Vec<ServerMessage> {
    vec![
        ServerMessage::Success { message: "Left matchmaking queue".to_string() },
        ServerMessage::Success { message: "".to_string() },
        ServerMessage::Error { message: "It's not your turn".to_string() },
        ServerMessage::MatchFound { opponent: "bob".to_string() },
        ServerMessage::GameState {
            board: sample_board(),
            current_player: "black".to_string(),
            your_color: "white".to_string(),
        },
        ServerMessage::GameState {
            board: vec![],
            current_player: "".to_string(),
            your_color: "".to_string(),
        },
        ServerMessage::GameState {
            board: vec![vec![], vec![Some("x".to_string())], vec![None, None]],
            current_player: "white".to_string(),
            your_color: "black".to_string(),
        },
        ServerMessage::GameOver { winner: Some("alice".to_string()), reason: "Game completed".to_string() },
        ServerMessage::GameOver { winner: None, reason: "Game completed".to_string() },
    ]
}

#[test]
fn the_text_of_each_client_message() {
    assert_eq!(
        encode_client_message(&ClientMessage::Authenticate { username: "alice".to_string() }),
        Some("{\"type\":\"authenticate\",\"payload\":{\"username\":\"alice\"}}".to_string())
    );
    assert_eq!(
        encode_client_message(&ClientMessage::JoinQueue),
        Some("{\"type\":\"join_queue\"}".to_string())
    );
    assert_eq!(
        encode_client_message(&ClientMessage::LeaveQueue),
        Some("{\"type\":\"leave_queue\"}".to_string())
    );
    assert_eq!(
        encode_client_message(&ClientMessage::MakeMove { x: 2, y: 3 }),
        Some("{\"type\":\"make_move\",\"payload\":{\"x\":2,\"y\":3}}".to_string())
    );
    assert_eq!(
        encode_client_message(&ClientMessage::Resign),
        Some("{\"type\":\"resign\"}".to_string())
    );
    assert_eq!(
        encode_client_message(&ClientMessage::Heartbeat),
        Some("{\"type\":\"heartbeat\"}".to_string())
    );
}

#[test]
fn the_text_of_each_server_message() {
    assert_eq!(
        encode_server_message(&ServerMessage::Success { message: "hi".to_string() }),
        Some("{\"type\":\"success\",\"message\":\"hi\"}".to_string())
    );
    assert_eq!(
        encode_server_message(&ServerMessage::Error { message: "Invalid move".to_string() }),
        Some("{\"type\":\"error\",\"message\":\"Invalid move\"}".to_string())
    );
    assert_eq!(
        encode_server_message(&ServerMessage::MatchFound { opponent: "bob".to_string() }),
        Some("{\"type\":\"match_found\",\"opponent\":\"bob\"}".to_string())
    );
    assert_eq!(
        encode_server_message(&ServerMessage::GameState {
            board: vec![vec![None, Some("black".to_string())], vec![Some("white".to_string()), None]],
            current_player: "black".to_string(),
            your_color: "white".to_string(),
        }),
        Some(
            "{\"type\":\"game_state\",\"board\":[[null,\"black\"],[\"white\",null]],\"current_player\":\"black\",\"your_color\":\"white\"}"
                .to_string()
        )
    );
    assert_eq!(
        encode_server_message(&ServerMessage::GameOver {
            winner: Some("alice".to_string()),
            reason: "Game completed".to_string(),
        }),
        Some("{\"type\":\"game_over\",\"winner\":\"alice\",\"reason\":\"Game completed\"}".to_string())
    );
    assert_eq!(
        encode_server_message(&ServerMessage::GameOver {
            winner: None,
            reason: "Opponent disconnected".to_string(),
        }),
        Some(
            "{\"type\":\"game_over\",\"winner\":null,\"reason\":\"Opponent disconnected\"}".to_string()
        )
    );
}

#[test]
fn a_text_is_escaped_as_json_asks() {
    assert_eq!(
        encode_server_message(&ServerMessage::Success { message: "a \"b\"\n\\".to_string() }),
        Some("{\"type\":\"success\",\"message\":\"a \\\"b\\\"\\n\\\\\"}".to_string())
    );
}

#[test]
fn the_disks_of_a_board_are_lower_case_names() {
    let text = encode_server_message(&ServerMessage::GameState {
        board: sample_board(),
        current_player: "black".to_string(),
        your_color: "black".to_string(),
    })
    .unwrap();
    let value: serde_json::Value = serde_json::from_str(&text).unwrap();
    assert_eq!(value["type"], "game_state");
    assert_eq!(value["current_player"], "black");
    assert_eq!(value["your_color"], "black");
    assert_eq!(value["board"].as_array().unwrap().len(), 8);
    assert_eq!(value["board"][3].as_array().unwrap().len(), 8);
    assert_eq!(value["board"][3][3], "white");
    assert_eq!(value["board"][3][4], "black");
    assert!(value["board"][0][0].is_null());
}

#[test]
fn reading_each_client_message() {
    assert_eq!(
        decode_client_message("{\"type\":\"authenticate\",\"payload\":{\"username\":\"alice\"}}"),
        Some(ClientMessage::Authenticate { username: "alice".to_string() })
    );
    assert_eq!(decode_client_message("{\"type\":\"join_queue\"}"), Some(ClientMessage::JoinQueue));
    assert_eq!(decode_client_message("{\"type\":\"leave_queue\"}"), Some(ClientMessage::LeaveQueue));
    assert_eq!(
        decode_client_message("{\"type\":\"make_move\",\"payload\":{\"x\":2,\"y\":3}}"),
        Some(ClientMessage::MakeMove { x: 2, y: 3 })
    );
    assert_eq!(decode_client_message("{\"type\":\"resign\"}"), Some(ClientMessage::Resign));
    assert_eq!(decode_client_message("{\"type\":\"heartbeat\"}"), Some(ClientMessage::Heartbeat));
    assert_eq!(
        decode_client_message(" { \"payload\" : { \"y\" : 7 , \"x\" : 0 } , \"type\" : \"make_move\" } "),
        Some(ClientMessage::MakeMove { x: 0, y: 7 })
    );
}

#[test]
fn an_unknown_kind_of_message_is_refused() {
    assert_eq!(decode_client_message("{\"type\":\"spectate\"}"), None);
    assert_eq!(decode_client_message("{\"type\":\"Authenticate\",\"payload\":{\"username\":\"a\"}}"), None);
    assert_eq!(decode_client_message("{\"type\":\"\"}"), None);
    assert_eq!(decode_client_message("{\"type\":\"success\",\"message\":\"hi\"}"), None);
    assert_eq!(decode_server_message("{\"type\":\"join_queue\"}"), None);
    assert_eq!(decode_server_message("{\"type\":\"state\"}"), None);
}

#[test]
fn a_text_that_is_no_json_is_refused() {
    assert_eq!(decode_client_message(""), None);
    assert_eq!(decode_client_message("hello"), None);
    assert_eq!(decode_client_message("{\"type\":\"join_queue\""), None);
    assert_eq!(decode_client_message("{\"type\":\"join_queue\"} trailing"), None);
    assert_eq!(decode_server_message("{type:success}"), None);
}

#[test]
fn a_json_value_that_is_no_message_is_refused() {
    assert_eq!(decode_client_message("null"), None);
    assert_eq!(decode_client_message("42"), None);
    assert_eq!(decode_client_message("\"join_queue\""), None);
    assert_eq!(decode_client_message("[{\"type\":\"join_queue\"}]"), None);
    assert_eq!(decode_client_message("{}"), None);
    assert_eq!(decode_client_message("{\"type\":7}"), None);
    assert_eq!(decode_client_message("{\"type\":null}"), None);
    assert_eq!(decode_client_message("{\"kind\":\"join_queue\"}"), None);
}

#[test]
fn a_message_without_its_fields_is_refused() {
    assert_eq!(decode_client_message("{\"type\":\"authenticate\"}"), None);
    assert_eq!(decode_client_message("{\"type\":\"authenticate\",\"payload\":{}}"), None);
    assert_eq!(decode_client_message("{\"type\":\"authenticate\",\"payload\":{\"username\":7}}"), None);
    assert_eq!(decode_client_message("{\"type\":\"authenticate\",\"payload\":\"alice\"}"), None);
    assert_eq!(decode_client_message("{\"type\":\"authenticate\",\"username\":\"alice\"}"), None);
    assert_eq!(decode_client_message("{\"type\":\"make_move\"}"), None);
    assert_eq!(decode_client_message("{\"type\":\"make_move\",\"payload\":{\"x\":2}}"), None);
    assert_eq!(decode_client_message("{\"type\":\"make_move\",\"payload\":{\"y\":2}}"), None);
    assert_eq!(decode_client_message("{\"type\":\"make_move\",\"x\":2,\"y\":3}"), None);
    assert_eq!(decode_server_message("{\"type\":\"success\"}"), None);
    assert_eq!(decode_server_message("{\"type\":\"error\",\"message\":null}"), None);
    assert_eq!(decode_server_message("{\"type\":\"match_found\",\"message\":\"bob\"}"), None);
    assert_eq!(decode_server_message("{\"type\":\"game_over\",\"winner\":\"bob\"}"), None);
    assert_eq!(
        decode_server_message("{\"type\":\"game_state\",\"current_player\":\"black\",\"your_color\":\"black\"}"),
        None
    );
    assert_eq!(
        decode_server_message("{\"type\":\"game_state\",\"board\":[],\"current_player\":\"black\"}"),
        None
    );
}

#[test]
fn a_coordinate_has_to_be_a_whole_number_from_zero_up() {
    assert_eq!(decode_client_message("{\"type\":\"make_move\",\"payload\":{\"x\":-1,\"y\":3}}"), None);
    assert_eq!(decode_client_message("{\"type\":\"make_move\",\"payload\":{\"x\":1.5,\"y\":3}}"), None);
    assert_eq!(decode_client_message("{\"type\":\"make_move\",\"payload\":{\"x\":\"2\",\"y\":3}}"), None);
    assert_eq!(decode_client_message("{\"type\":\"make_move\",\"payload\":{\"x\":null,\"y\":3}}"), None);
    assert_eq!(
        decode_client_message("{\"type\":\"make_move\",\"payload\":{\"x\":99999999999999999999,\"y\":3}}"),
        None
    );
    assert_eq!(
        decode_client_message("{\"type\":\"make_move\",\"payload\":{\"x\":8,\"y\":300}}"),
        Some(ClientMessage::MakeMove { x: 8, y: 300 })
    );
}

#[test]
fn members_that_a_message_does_not_define_are_ignored() {
    assert_eq!(
        decode_client_message("{\"type\":\"join_queue\",\"payload\":{\"rating\":1500},\"version\":2}"),
        Some(ClientMessage::JoinQueue)
    );
    assert_eq!(
        decode_client_message("{\"type\":\"resign\",\"payload\":null}"),
        Some(ClientMessage::Resign)
    );
    assert_eq!(
        decode_client_message(
            "{\"type\":\"authenticate\",\"payload\":{\"username\":\"alice\",\"token\":\"t\"},\"extra\":[1,2]}"
        ),
        Some(ClientMessage::Authenticate { username: "alice".to_string() })
    );
    assert_eq!(
        decode_client_message("{\"type\":\"make_move\",\"payload\":{\"x\":1,\"y\":2,\"z\":3}}"),
        Some(ClientMessage::MakeMove { x: 1, y: 2 })
    );
    assert_eq!(
        decode_server_message("{\"type\":\"success\",\"message\":\"hi\",\"code\":200}"),
        Some(ServerMessage::Success { message: "hi".to_string() })
    );
}

#[test]
fn reading_each_server_message() {
    assert_eq!(
        decode_server_message("{\"type\":\"success\",\"message\":\"hi\"}"),
        Some(ServerMessage::Success { message: "hi".to_string() })
    );
    assert_eq!(
        decode_server_message("{\"type\":\"error\",\"message\":\"no\"}"),
        Some(ServerMessage::Error { message: "no".to_string() })
    );
    assert_eq!(
        decode_server_message("{\"type\":\"match_found\",\"opponent\":\"bob\"}"),
        Some(ServerMessage::MatchFound { opponent: "bob".to_string() })
    );
    assert_eq!(
        decode_server_message(
            "{\"type\":\"game_state\",\"board\":[[null,\"black\"],[\"white\",null]],\"current_player\":\"white\",\"your_color\":\"black\"}"
        ),
        Some(ServerMessage::GameState {
            board: vec![vec![None, Some("black".to_string())], vec![Some("white".to_string()), None]],
            current_player: "white".to_string(),
            your_color: "black".to_string(),
        })
    );
    assert_eq!(
        decode_server_message("{\"type\":\"game_over\",\"winner\":\"alice\",\"reason\":\"Game completed\"}"),
        Some(ServerMessage::GameOver {
            winner: Some("alice".to_string()),
            reason: "Game completed".to_string(),
        })
    );
    assert_eq!(
        decode_server_message("{\"type\":\"game_over\",\"winner\":null,\"reason\":\"Game completed\"}"),
        Some(ServerMessage::GameOver { winner: None, reason: "Game completed".to_string() })
    );
    assert_eq!(
        decode_server_message("{\"type\":\"game_over\",\"reason\":\"Game completed\"}"),
        Some(ServerMessage::GameOver { winner: None, reason: "Game completed".to_string() })
    );
}

#[test]
fn a_board_of_anything_but_names_and_nulls_is_refused() {
    assert_eq!(
        decode_server_message(
            "{\"type\":\"game_state\",\"board\":[[1]],\"current_player\":\"white\",\"your_color\":\"black\"}"
        ),
        None
    );
    assert_eq!(
        decode_server_message(
            "{\"type\":\"game_state\",\"board\":[null],\"current_player\":\"white\",\"your_color\":\"black\"}"
        ),
        None
    );
    assert_eq!(
        decode_server_message(
            "{\"type\":\"game_state\",\"board\":\"none\",\"current_player\":\"white\",\"your_color\":\"black\"}"
        ),
        None
    );
    assert_eq!(
        decode_server_message("{\"type\":\"game_over\",\"winner\":7,\"reason\":\"Game completed\"}"),
        None
    );
}

#[test]
fn writing_and_reading_a_client_message_gives_it_back() {
    for message in client_messages() {
        let text = encode_client_message(&message).unwrap();
        assert_eq!(decode_client_message(&text), Some(message));
    }
}

#[test]
fn writing_and_reading_a_server_message_gives_it_back() {
    for message in server_messages() {
        let text = encode_server_message(&message).unwrap();
        assert_eq!(decode_server_message(&text), Some(message));
    }
}

#[test]
fn the_value_of_a_message_stands_for_the_message() {
    for message in client_messages() {
        let value = client_message_value(&message);
        assert_eq!(client_message_of_value(&value), Some(message));
    }
    for message in server_messages() {
        let value = server_message_value(&message);
        assert_eq!(server_message_of_value(&value), Some(message));
    }
}

#[test]
fn the_kind_of_a_message_is_its_first_member() {
    for message in client_messages() {
        let value = client_message_value(&message);
        assert_eq!(value.as_object().unwrap().keys().next().unwrap(), "type");
    }
    for message in server_messages() {
        let value = server_message_value(&message);
        assert_eq!(value.as_object().unwrap().keys().next().unwrap(), "type");
    }
    let value = server_message_value(&ServerMessage::GameState {
        board: vec![],
        current_player: "black".to_string(),
        your_color: "white".to_string(),
    });
    let names: Vec<&String> = value.as_object().unwrap().keys().collect();
    assert_eq!(names, vec!["type", "board", "current_player", "your_color"]);
}

#[test]
fn the_value_of_a_message_is_an_object_with_its_kind() {
    let value = client_message_value(&ClientMessage::MakeMove { x: 2, y: 3 });
    assert!(value.is_object());
    assert_eq!(value.as_object().unwrap().len(), 2);
    assert_eq!(value["type"], "make_move");
    assert_eq!(value["payload"]["x"], 2);
    assert_eq!(value["payload"]["y"], 3);
    let value = client_message_value(&ClientMessage::Heartbeat);
    assert_eq!(value.as_object().unwrap().len(), 1);
    let value = server_message_value(&ServerMessage::GameOver {
        winner: None,
        reason: "Game completed".to_string(),
    });
    assert_eq!(value.as_object().unwrap().len(), 3);
    assert!(value["winner"].is_null());
    assert_eq!(value["reason"], "Game completed");
}

#[test]
fn a_copy_of_a_message_equals_the_message() {
    for message in server_messages() {
        assert_eq!(message.clone(), message);
    }
    assert_eq!(clone_board(&sample_board()), sample_board());
}
