//! The wire format of the messages.
//!
//! A message travels as the text of a JSON object. A client message has a
//! member `type` and, where the kind of message has fields, a member
//! `payload` that is an object of those fields. A server message has a
//! member `type` and its fields beside it. Members that a message does not
//! define are ignored; a `type` that names no message is refused.
//!
//! The format is stated as a pair of functions between messages and JSON
//! trees; reading and writing the JSON text itself is `serde_json`'s part.

use crate::json::{
    array_value, distinct_names, is_member, is_null, items_of, json_members, json_parse, json_text,
    json_tree, json_trees, member, null_value, object_value, parse, render, text_of, text_value,
    unsigned_of, unsigned_value, JsonNumber, JsonTree,
};
use crate::game::{opt_text, wire_view};
use crate::message::{ClientMessage, ClientMessageView, ServerMessage, ServerMessageView};
use crate::text::str_eq;
use vstd::prelude::*;

verus! {

/// The member that says which kind of message an object is.
pub open spec fn kind(tag: Seq<char>) -> (Seq<char>, JsonTree) {
    ("type"@, JsonTree::Text(tag))
}

/// The tree of an unsigned number.
pub open spec fn number_tree(n: usize) -> JsonTree {
    JsonTree::Number(JsonNumber::Unsigned(n as u64))
}

/// The JSON tree of a client message.
pub open spec fn client_tree(message: ClientMessageView) -> JsonTree {
    match message {
        ClientMessageView::Authenticate { username } => JsonTree::Object(
            seq![
                kind("authenticate"@),
                ("payload"@, JsonTree::Object(seq![("username"@, JsonTree::Text(username))])),
            ],
        ),
        ClientMessageView::JoinQueue => JsonTree::Object(seq![kind("join_queue"@)]),
        ClientMessageView::LeaveQueue => JsonTree::Object(seq![kind("leave_queue"@)]),
        ClientMessageView::MakeMove { x, y } => JsonTree::Object(
            seq![
                kind("make_move"@),
                ("payload"@, JsonTree::Object(seq![("x"@, number_tree(x)), ("y"@, number_tree(y))])),
            ],
        ),
        ClientMessageView::Resign => JsonTree::Object(seq![kind("resign"@)]),
        ClientMessageView::Heartbeat => JsonTree::Object(seq![kind("heartbeat"@)]),
    }
}

/// The member `name` of `tree` as a text.
pub open spec fn text_field(tree: JsonTree, name: Seq<char>) -> Option<Seq<char>> {
    match tree.field(name) {
        Some(value) => value.as_text(),
        None => None,
    }
}

/// The member `name` of `tree` as a number that fits a `usize`.
pub open spec fn index_field(tree: JsonTree, name: Seq<char>) -> Option<usize> {
    match tree.field(name) {
        Some(value) => match value.as_unsigned() {
            Some(n) => if n <= usize::MAX {
                Some(n as usize)
            } else {
                None
            },
            None => None,
        },
        None => None,
    }
}

/// The client message that a JSON tree stands for, if it stands for one.
pub open spec fn client_of_tree(tree: JsonTree) -> Option<ClientMessageView> {
    match text_field(tree, "type"@) {
        Some(tag) => if tag == "authenticate"@ {
            match tree.field("payload"@) {
                Some(payload) => match text_field(payload, "username"@) {
                    Some(username) => Some(ClientMessageView::Authenticate { username }),
                    None => None,
                },
                None => None,
            }
        } else if tag == "join_queue"@ {
            Some(ClientMessageView::JoinQueue)
        } else if tag == "leave_queue"@ {
            Some(ClientMessageView::LeaveQueue)
        } else if tag == "make_move"@ {
            match tree.field("payload"@) {
                Some(payload) => match (index_field(payload, "x"@), index_field(payload, "y"@)) {
                    (Some(x), Some(y)) => Some(ClientMessageView::MakeMove { x, y }),
                    _ => None,
                },
                None => None,
            }
        } else if tag == "resign"@ {
            Some(ClientMessageView::Resign)
        } else if tag == "heartbeat"@ {
            Some(ClientMessageView::Heartbeat)
        } else {
            None
        },
        None => None,
    }
}

/// The client message that a text stands for, if it stands for one.
pub open spec fn client_decoding(text: Seq<char>) -> Option<ClientMessageView> {
    match json_parse(text) {
        Some(tree) => client_of_tree(tree),
        None => None,
    }
}

/// The model of an optional client message.
pub open spec fn client_view(message: Option<ClientMessage>) -> Option<ClientMessageView> {
    match message {
        Some(m) => Some(m@),
        None => None,
    }
}

/// The names of the members and of the kinds of message differ from one
/// another.
pub proof fn lemma_names_differ()
    ensures
        "type"@ != "payload"@,
        "x"@ != "y"@,
        "type"@ != "message"@,
        "type"@ != "opponent"@,
        "type"@ != "board"@,
        "type"@ != "current_player"@,
        "type"@ != "your_color"@,
        "type"@ != "winner"@,
        "type"@ != "reason"@,
        "board"@ != "current_player"@,
        "board"@ != "your_color"@,
        "current_player"@ != "your_color"@,
        "winner"@ != "reason"@,
        "authenticate"@ != "join_queue"@,
        "authenticate"@ != "leave_queue"@,
        "authenticate"@ != "make_move"@,
        "authenticate"@ != "resign"@,
        "authenticate"@ != "heartbeat"@,
        "join_queue"@ != "leave_queue"@,
        "join_queue"@ != "make_move"@,
        "join_queue"@ != "resign"@,
        "join_queue"@ != "heartbeat"@,
        "leave_queue"@ != "make_move"@,
        "leave_queue"@ != "resign"@,
        "leave_queue"@ != "heartbeat"@,
        "make_move"@ != "resign"@,
        "make_move"@ != "heartbeat"@,
        "resign"@ != "heartbeat"@,
        "success"@ != "error"@,
        "success"@ != "match_found"@,
        "success"@ != "game_state"@,
        "success"@ != "game_over"@,
        "error"@ != "match_found"@,
        "error"@ != "game_state"@,
        "error"@ != "game_over"@,
        "match_found"@ != "game_state"@,
        "match_found"@ != "game_over"@,
        "game_state"@ != "game_over"@,
{
    reveal_strlit("type");
    reveal_strlit("payload");
    reveal_strlit("x");
    reveal_strlit("y");
    reveal_strlit("message");
    reveal_strlit("opponent");
    reveal_strlit("board");
    reveal_strlit("current_player");
    reveal_strlit("your_color");
    reveal_strlit("winner");
    reveal_strlit("reason");
    reveal_strlit("authenticate");
    reveal_strlit("join_queue");
    reveal_strlit("leave_queue");
    reveal_strlit("make_move");
    reveal_strlit("resign");
    reveal_strlit("heartbeat");
    reveal_strlit("success");
    reveal_strlit("error");
    reveal_strlit("match_found");
    reveal_strlit("game_state");
    reveal_strlit("game_over");
    assert("type"@.len() == 4);
    assert("payload"@.len() == 7);
    assert("x"@.len() == 1);
    assert("y"@.len() == 1);
    assert("message"@.len() == 7);
    assert("opponent"@.len() == 8);
    assert("board"@.len() == 5);
    assert("current_player"@.len() == 14);
    assert("your_color"@.len() == 10);
    assert("winner"@.len() == 6);
    assert("reason"@.len() == 6);
    assert("authenticate"@.len() == 12);
    assert("join_queue"@.len() == 10);
    assert("leave_queue"@.len() == 11);
    assert("make_move"@.len() == 9);
    assert("resign"@.len() == 6);
    assert("heartbeat"@.len() == 9);
    assert("success"@.len() == 7);
    assert("error"@.len() == 5);
    assert("match_found"@.len() == 11);
    assert("game_state"@.len() == 10);
    assert("game_over"@.len() == 9);
    assert("x"@[0] != "y"@[0]);
    assert("winner"@[0] != "reason"@[0]);
    assert("make_move"@[0] != "heartbeat"@[0]);
}

/// The names of the members differ from one another.
pub open spec fn distinct_members(members: Seq<(Seq<char>, JsonTree)>) -> bool {
    forall|i: int, j: int|
        0 <= i < j < members.len() ==> (#[trigger] members[i]).0 != (#[trigger] members[j]).0
}

/// Where the names of the members differ, the member of a name is the one
/// that stands under it.
pub proof fn lemma_field_found(members: Seq<(Seq<char>, JsonTree)>, i: int)
    requires
        distinct_members(members),
        0 <= i < members.len(),
    ensures
        JsonTree::Object(members).field(members[i].0) == Some(members[i].1),
{
    let key = members[i].0;
    assert(is_member(members, key, i));
    let j = choose|j: int| is_member(members, key, j);
    assert(is_member(members, key, j));
    if j < i {
        assert(members[j].0 != members[i].0);
    } else if i < j {
        assert(members[i].0 != members[j].0);
    }
}

/// Decoding the tree of a client message gives the message back.
pub proof fn lemma_client_round_trip(message: ClientMessageView)
    ensures
        client_of_tree(client_tree(message)) == Some(message),
{
    lemma_names_differ();
    match message {
        ClientMessageView::Authenticate { username } => {
            let inner = seq![("username"@, JsonTree::Text(username))];
            let outer = seq![kind("authenticate"@), ("payload"@, JsonTree::Object(inner))];
            lemma_field_found(inner, 0);
            lemma_field_found(outer, 0);
            lemma_field_found(outer, 1);
        },
        ClientMessageView::MakeMove { x, y } => {
            let inner = seq![("x"@, number_tree(x)), ("y"@, number_tree(y))];
            let outer = seq![kind("make_move"@), ("payload"@, JsonTree::Object(inner))];
            lemma_field_found(inner, 0);
            lemma_field_found(inner, 1);
            lemma_field_found(outer, 0);
            lemma_field_found(outer, 1);
            assert(index_field(JsonTree::Object(inner), "x"@) == Some(x));
            assert(index_field(JsonTree::Object(inner), "y"@) == Some(y));
        },
        ClientMessageView::JoinQueue => {
            lemma_field_found(seq![kind("join_queue"@)], 0);
        },
        ClientMessageView::LeaveQueue => {
            lemma_field_found(seq![kind("leave_queue"@)], 0);
        },
        ClientMessageView::Resign => {
            lemma_field_found(seq![kind("resign"@)], 0);
        },
        ClientMessageView::Heartbeat => {
            lemma_field_found(seq![kind("heartbeat"@)], 0);
        },
    }
}

/// Appends a named value to the members of an object under construction.
fn push_member(fields: &mut Vec<(String, serde_json::Value)>, name: &str, value: serde_json::Value)
    requires
        distinct_names(old(fields)@),
        forall|i: int| 0 <= i < old(fields)@.len() ==> (#[trigger] old(fields)@[i]).0@ != name@,
    ensures
        distinct_names(final(fields)@),
        final(fields)@.len() == old(fields)@.len() + 1,
        forall|i: int| 0 <= i < old(fields)@.len() ==> final(fields)@[i] == old(fields)@[i],
        final(fields)@[old(fields)@.len() as int].0@ == name@,
        json_members(final(fields)@) == json_members(old(fields)@).push(
            (name@, json_tree(value)),
        ),
{
    fields.push((name.to_string(), value));
    assert(json_members(fields@) =~= json_members(old(fields)@).push((name@, json_tree(value))));
}

/// The `serde_json` value of a client message.
pub fn client_message_value(message: &ClientMessage) -> (value: serde_json::Value)
    ensures
        json_tree(value) == client_tree(message@),
{
    proof {
        lemma_names_differ();
    }
    let mut fields: Vec<(String, serde_json::Value)> = Vec::new();
    match message {
        ClientMessage::Authenticate { username } => {
            let mut inner: Vec<(String, serde_json::Value)> = Vec::new();
            push_member(&mut inner, "username", text_value(username.clone()));
            assert(json_members(inner@) =~= seq![("username"@, JsonTree::Text(username@))]);
            push_member(&mut fields, "type", text_value("authenticate".to_string()));
            push_member(&mut fields, "payload", object_value(inner));
            assert(json_members(fields@) =~= seq![
                kind("authenticate"@),
                ("payload"@, JsonTree::Object(seq![("username"@, JsonTree::Text(username@))])),
            ]);
        },
        ClientMessage::JoinQueue => {
            push_member(&mut fields, "type", text_value("join_queue".to_string()));
            assert(json_members(fields@) =~= seq![kind("join_queue"@)]);
        },
        ClientMessage::LeaveQueue => {
            push_member(&mut fields, "type", text_value("leave_queue".to_string()));
            assert(json_members(fields@) =~= seq![kind("leave_queue"@)]);
        },
        ClientMessage::MakeMove { x, y } => {
            let mut inner: Vec<(String, serde_json::Value)> = Vec::new();
            push_member(&mut inner, "x", unsigned_value(*x as u64));
            push_member(&mut inner, "y", unsigned_value(*y as u64));
            assert(json_members(inner@) =~= seq![("x"@, number_tree(*x)), ("y"@, number_tree(*y))]);
            push_member(&mut fields, "type", text_value("make_move".to_string()));
            push_member(&mut fields, "payload", object_value(inner));
            assert(json_members(fields@) =~= seq![
                kind("make_move"@),
                (
                    "payload"@,
                    JsonTree::Object(seq![("x"@, number_tree(*x)), ("y"@, number_tree(*y))]),
                ),
            ]);
        },
        ClientMessage::Resign => {
            push_member(&mut fields, "type", text_value("resign".to_string()));
            assert(json_members(fields@) =~= seq![kind("resign"@)]);
        },
        ClientMessage::Heartbeat => {
            push_member(&mut fields, "type", text_value("heartbeat".to_string()));
            assert(json_members(fields@) =~= seq![kind("heartbeat"@)]);
        },
    }
    object_value(fields)
}

/// Writes a client message as JSON text: what `serde_json` makes of the
/// message's tree, which is nothing where it fails to write the value.
pub fn encode_client_message(message: &ClientMessage) -> (text: Option<String>)
    ensures
        opt_text(text) == json_text(client_tree(message@)),
{
    let value = client_message_value(message);
    render(&value)
}

/// The member `name` of `value` as a text.
fn read_text<'a>(value: &'a serde_json::Value, name: &str) -> (text: Option<&'a str>)
    ensures
        match text_field(json_tree(*value), name@) {
            Some(t) => text is Some && text->Some_0@ == t,
            None => text is None,
        },
{
    match member(value, name) {
        Some(found) => text_of(found),
        None => None,
    }
}

/// The member `name` of `value` as a number that fits a `usize`.
fn read_index(value: &serde_json::Value, name: &str) -> (n: Option<usize>)
    ensures
        n == index_field(json_tree(*value), name@),
{
    match member(value, name) {
        Some(found) => match unsigned_of(found) {
            Some(n) => if n <= usize::MAX as u64 {
                Some(n as usize)
            } else {
                None
            },
            None => None,
        },
        None => None,
    }
}

/// The client message that a `serde_json` value stands for, if it stands
/// for one.
pub fn client_message_of_value(value: &serde_json::Value) -> (message: Option<ClientMessage>)
    ensures
        client_view(message) == client_of_tree(json_tree(*value)),
{
    let tag = match read_text(value, "type") {
        Some(tag) => tag,
        None => {
            return None;
        },
    };
    if str_eq(tag, "authenticate") {
        match member(value, "payload") {
            Some(payload) => match read_text(payload, "username") {
                Some(username) => Some(ClientMessage::Authenticate { username: username.to_string() }),
                None => None,
            },
            None => None,
        }
    } else if str_eq(tag, "join_queue") {
        Some(ClientMessage::JoinQueue)
    } else if str_eq(tag, "leave_queue") {
        Some(ClientMessage::LeaveQueue)
    } else if str_eq(tag, "make_move") {
        match member(value, "payload") {
            Some(payload) => {
                let x = read_index(payload, "x");
                let y = read_index(payload, "y");
                match (x, y) {
                    (Some(x), Some(y)) => Some(ClientMessage::MakeMove { x, y }),
                    _ => None,
                }
            },
            None => None,
        }
    } else if str_eq(tag, "resign") {
        Some(ClientMessage::Resign)
    } else if str_eq(tag, "heartbeat") {
        Some(ClientMessage::Heartbeat)
    } else {
        None
    }
}

/// Reads a client message from JSON text. Nothing comes back where the
/// text is no JSON, names no kind of message, or lacks a field of the
/// message it names.
pub fn decode_client_message(text: &str) -> (message: Option<ClientMessage>)
    ensures
        client_view(message) == client_decoding(text@),
{
    match parse(text) {
        Some(value) => client_message_of_value(&value),
        None => None,
    }
}

/// The JSON tree of a cell of the board: the name of its disk's colour, or
/// `null` where it is empty.
pub open spec fn cell_tree(cell: Option<Seq<char>>) -> JsonTree {
    match cell {
        Some(text) => JsonTree::Text(text),
        None => JsonTree::Null,
    }
}

/// The JSON tree of a row of the board: the array of its cells.
pub open spec fn row_tree(row: Seq<Option<Seq<char>>>) -> JsonTree {
    JsonTree::Array(row.map_values(|cell: Option<Seq<char>>| cell_tree(cell)))
}

/// The JSON tree of a board: the array of its rows.
pub open spec fn board_tree(board: Seq<Seq<Option<Seq<char>>>>) -> JsonTree {
    JsonTree::Array(board.map_values(|row: Seq<Option<Seq<char>>>| row_tree(row)))
}

/// The JSON tree of a server message.
pub open spec fn server_tree(message: ServerMessageView) -> JsonTree {
    match message {
        ServerMessageView::Success { message } => JsonTree::Object(
            seq![kind("success"@), ("message"@, JsonTree::Text(message))],
        ),
        ServerMessageView::Error { message } => JsonTree::Object(
            seq![kind("error"@), ("message"@, JsonTree::Text(message))],
        ),
        ServerMessageView::MatchFound { opponent } => JsonTree::Object(
            seq![kind("match_found"@), ("opponent"@, JsonTree::Text(opponent))],
        ),
        ServerMessageView::GameState { board, current_player, your_color } => JsonTree::Object(
            seq![
                kind("game_state"@),
                ("board"@, board_tree(board)),
                ("current_player"@, JsonTree::Text(current_player)),
                ("your_color"@, JsonTree::Text(your_color)),
            ],
        ),
        ServerMessageView::GameOver { winner, reason } => JsonTree::Object(
            seq![
                kind("game_over"@),
                ("winner"@, cell_tree(winner)),
                ("reason"@, JsonTree::Text(reason)),
            ],
        ),
    }
}

/// The cell that a JSON tree stands for: `null` for an empty cell, a text
/// for a disk; any other tree stands for no cell.
pub open spec fn cell_of(tree: JsonTree) -> Option<Option<Seq<char>>> {
    match tree {
        JsonTree::Null => Some(None),
        JsonTree::Text(text) => Some(Some(text)),
        _ => None,
    }
}

/// The row that a JSON tree stands for: an array of cells.
pub open spec fn row_of(tree: JsonTree) -> Option<Seq<Option<Seq<char>>>> {
    match tree {
        JsonTree::Array(items) => if forall|i: int|
            0 <= i < items.len() ==> cell_of(#[trigger] items[i]) is Some {
            Some(items.map_values(|item: JsonTree| cell_of(item)->Some_0))
        } else {
            None
        },
        _ => None,
    }
}

/// The board that a JSON tree stands for: an array of rows.
pub open spec fn board_of(tree: JsonTree) -> Option<Seq<Seq<Option<Seq<char>>>>> {
    match tree {
        JsonTree::Array(rows) => if forall|i: int|
            0 <= i < rows.len() ==> row_of(#[trigger] rows[i]) is Some {
            Some(rows.map_values(|row: JsonTree| row_of(row)->Some_0))
        } else {
            None
        },
        _ => None,
    }
}

/// The member `name` of `tree` as a text that may be missing or `null`.
pub open spec fn optional_text_field(tree: JsonTree, name: Seq<char>) -> Option<Option<Seq<char>>> {
    match tree.field(name) {
        Some(value) => cell_of(value),
        None => Some(None),
    }
}

/// The server message that a JSON tree stands for, if it stands for one.
pub open spec fn server_of_tree(tree: JsonTree) -> Option<ServerMessageView> {
    match text_field(tree, "type"@) {
        Some(tag) => if tag == "success"@ {
            match text_field(tree, "message"@) {
                Some(message) => Some(ServerMessageView::Success { message }),
                None => None,
            }
        } else if tag == "error"@ {
            match text_field(tree, "message"@) {
                Some(message) => Some(ServerMessageView::Error { message }),
                None => None,
            }
        } else if tag == "match_found"@ {
            match text_field(tree, "opponent"@) {
                Some(opponent) => Some(ServerMessageView::MatchFound { opponent }),
                None => None,
            }
        } else if tag == "game_state"@ {
            match tree.field("board"@) {
                Some(cells) => match (
                    board_of(cells),
                    text_field(tree, "current_player"@),
                    text_field(tree, "your_color"@),
                ) {
                    (Some(board), Some(current_player), Some(your_color)) => Some(
                        ServerMessageView::GameState { board, current_player, your_color },
                    ),
                    _ => None,
                },
                None => None,
            }
        } else if tag == "game_over"@ {
            match (optional_text_field(tree, "winner"@), text_field(tree, "reason"@)) {
                (Some(winner), Some(reason)) => Some(
                    ServerMessageView::GameOver { winner, reason },
                ),
                _ => None,
            }
        } else {
            None
        },
        None => None,
    }
}

/// The server message that a text stands for, if it stands for one.
pub open spec fn server_decoding(text: Seq<char>) -> Option<ServerMessageView> {
    match json_parse(text) {
        Some(tree) => server_of_tree(tree),
        None => None,
    }
}

/// The model of an optional server message.
pub open spec fn server_view(message: Option<ServerMessage>) -> Option<ServerMessageView> {
    match message {
        Some(m) => Some(m@),
        None => None,
    }
}

/// Decoding the tree of a board gives the board back.
pub proof fn lemma_board_round_trip(board: Seq<Seq<Option<Seq<char>>>>)
    ensures
        board_of(board_tree(board)) == Some(board),
{
    let rows = board.map_values(|row: Seq<Option<Seq<char>>>| row_tree(row));
    assert forall|i: int| 0 <= i < rows.len() implies row_of(#[trigger] rows[i]) == Some(
        board[i],
    ) by {
        let items = board[i].map_values(|cell: Option<Seq<char>>| cell_tree(cell));
        assert(rows[i] == JsonTree::Array(items));
        assert forall|j: int| 0 <= j < items.len() implies cell_of(#[trigger] items[j]) == Some(
            board[i][j],
        ) by {}
        assert(items.map_values(|item: JsonTree| cell_of(item)->Some_0) =~= board[i]);
    }
    assert(rows.map_values(|row: JsonTree| row_of(row)->Some_0) =~= board);
}

/// Decoding the tree of a server message gives the message back.
pub proof fn lemma_server_round_trip(message: ServerMessageView)
    ensures
        server_of_tree(server_tree(message)) == Some(message),
{
    lemma_names_differ();
    match message {
        ServerMessageView::Success { message } => {
            let members = seq![kind("success"@), ("message"@, JsonTree::Text(message))];
            lemma_field_found(members, 0);
            lemma_field_found(members, 1);
        },
        ServerMessageView::Error { message } => {
            let members = seq![kind("error"@), ("message"@, JsonTree::Text(message))];
            lemma_field_found(members, 0);
            lemma_field_found(members, 1);
        },
        ServerMessageView::MatchFound { opponent } => {
            let members = seq![kind("match_found"@), ("opponent"@, JsonTree::Text(opponent))];
            lemma_field_found(members, 0);
            lemma_field_found(members, 1);
        },
        ServerMessageView::GameState { board, current_player, your_color } => {
            lemma_board_round_trip(board);
            let members = seq![
                kind("game_state"@),
                ("board"@, board_tree(board)),
                ("current_player"@, JsonTree::Text(current_player)),
                ("your_color"@, JsonTree::Text(your_color)),
            ];
            lemma_field_found(members, 0);
            lemma_field_found(members, 1);
            lemma_field_found(members, 2);
            lemma_field_found(members, 3);
            let tree = server_tree(message);
            assert(tree.field("board"@) == Some(board_tree(board)));
            assert(text_field(tree, "current_player"@) == Some(current_player));
            assert(text_field(tree, "your_color"@) == Some(your_color));
        },
        ServerMessageView::GameOver { winner, reason } => {
            let members = seq![
                kind("game_over"@),
                ("winner"@, cell_tree(winner)),
                ("reason"@, JsonTree::Text(reason)),
            ];
            lemma_field_found(members, 0);
            lemma_field_found(members, 1);
            lemma_field_found(members, 2);
            let tree = server_tree(message);
            assert(optional_text_field(tree, "winner"@) == Some(winner));
            assert(text_field(tree, "reason"@) == Some(reason));
        },
    }
}

/// The `serde_json` value of a cell of the board.
fn cell_value(cell: &Option<String>) -> (value: serde_json::Value)
    ensures
        json_tree(value) == cell_tree(opt_text(*cell)),
{
    match cell {
        Some(text) => text_value(text.clone()),
        None => null_value(),
    }
}

/// The `serde_json` value of a board.
fn board_value(board: &Vec<Vec<Option<String>>>) -> (value: serde_json::Value)
    ensures
        json_tree(value) == board_tree(wire_view(board)),
{
    let ghost model = wire_view(board);
    let mut rows: Vec<serde_json::Value> = Vec::new();
    let mut y: usize = 0;
    while y < board.len()
        invariant
            y <= board@.len(),
            model == wire_view(board),
            rows@.len() == y,
            forall|r: int| 0 <= r < y ==> json_tree(#[trigger] rows@[r]) == row_tree(model[r]),
        decreases board@.len() - y,
    {
        let row = &board[y];
        let mut cells: Vec<serde_json::Value> = Vec::new();
        let mut x: usize = 0;
        while x < row.len()
            invariant
                x <= row@.len(),
                y < board@.len(),
                model == wire_view(board),
                *row == board@[y as int],
                cells@.len() == x,
                forall|c: int|
                    0 <= c < x ==> json_tree(#[trigger] cells@[c]) == cell_tree(
                        model[y as int][c],
                    ),
            decreases row@.len() - x,
        {
            cells.push(cell_value(&row[x]));
            x += 1;
        }
        assert(json_trees(cells@) =~= model[y as int].map_values(
            |cell: Option<Seq<char>>| cell_tree(cell),
        ));
        rows.push(array_value(cells));
        y += 1;
    }
    assert(json_trees(rows@) =~= model.map_values(|row: Seq<Option<Seq<char>>>| row_tree(row)));
    array_value(rows)
}

/// The `serde_json` value of a server message.
pub fn server_message_value(message: &ServerMessage) -> (value: serde_json::Value)
    ensures
        json_tree(value) == server_tree(message@),
{
    proof {
        lemma_names_differ();
    }
    let mut fields: Vec<(String, serde_json::Value)> = Vec::new();
    match message {
        ServerMessage::Success { message } => {
            push_member(&mut fields, "type", text_value("success".to_string()));
            push_member(&mut fields, "message", text_value(message.clone()));
            assert(json_members(fields@) =~= seq![
                kind("success"@),
                ("message"@, JsonTree::Text(message@)),
            ]);
        },
        ServerMessage::Error { message } => {
            push_member(&mut fields, "type", text_value("error".to_string()));
            push_member(&mut fields, "message", text_value(message.clone()));
            assert(json_members(fields@) =~= seq![
                kind("error"@),
                ("message"@, JsonTree::Text(message@)),
            ]);
        },
        ServerMessage::MatchFound { opponent } => {
            push_member(&mut fields, "type", text_value("match_found".to_string()));
            push_member(&mut fields, "opponent", text_value(opponent.clone()));
            assert(json_members(fields@) =~= seq![
                kind("match_found"@),
                ("opponent"@, JsonTree::Text(opponent@)),
            ]);
        },
        ServerMessage::GameState { board, current_player, your_color } => {
            push_member(&mut fields, "type", text_value("game_state".to_string()));
            push_member(&mut fields, "board", board_value(board));
            push_member(&mut fields, "current_player", text_value(current_player.clone()));
            push_member(&mut fields, "your_color", text_value(your_color.clone()));
            assert(json_members(fields@) =~= seq![
                kind("game_state"@),
                ("board"@, board_tree(wire_view(board))),
                ("current_player"@, JsonTree::Text(current_player@)),
                ("your_color"@, JsonTree::Text(your_color@)),
            ]);
        },
        ServerMessage::GameOver { winner, reason } => {
            push_member(&mut fields, "type", text_value("game_over".to_string()));
            push_member(&mut fields, "winner", cell_value(winner));
            push_member(&mut fields, "reason", text_value(reason.clone()));
            assert(json_members(fields@) =~= seq![
                kind("game_over"@),
                ("winner"@, cell_tree(opt_text(*winner))),
                ("reason"@, JsonTree::Text(reason@)),
            ]);
        },
    }
    object_value(fields)
}

/// Writes a server message as JSON text: what `serde_json` makes of the
/// message's tree, which is nothing where it fails to write the value.
pub fn encode_server_message(message: &ServerMessage) -> (text: Option<String>)
    ensures
        opt_text(text) == json_text(server_tree(message@)),
{
    let value = server_message_value(message);
    render(&value)
}

/// The cell that a `serde_json` value stands for.
fn cell_of_value(value: &serde_json::Value) -> (cell: Option<Option<String>>)
    ensures
        match cell_of(json_tree(*value)) {
            Some(c) => cell is Some && opt_text(cell->Some_0) == c,
            None => cell is None,
        },
{
    if is_null(value) {
        Some(None)
    } else {
        match text_of(value) {
            Some(text) => Some(Some(text.to_string())),
            None => None,
        }
    }
}

/// The texts of a row of cells.
pub open spec fn row_view(row: Seq<Option<String>>) -> Seq<Option<Seq<char>>> {
    row.map_values(|cell: Option<String>| opt_text(cell))
}

/// The row that a `serde_json` value stands for.
fn row_of_value(value: &serde_json::Value) -> (row: Option<Vec<Option<String>>>)
    ensures
        match row_of(json_tree(*value)) {
            Some(r) => row is Some && row_view(row->Some_0@) == r,
            None => row is None,
        },
{
    let items = match items_of(value) {
        Some(items) => items,
        None => {
            return None;
        },
    };
    let ghost trees = json_trees(items@);
    let mut row: Vec<Option<String>> = Vec::new();
    let mut i: usize = 0;
    while i < items.len()
        invariant
            i <= items@.len(),
            trees == json_trees(items@),
            json_tree(*value) == JsonTree::Array(trees),
            row@.len() == i,
            forall|j: int|
                0 <= j < i ==> cell_of(#[trigger] trees[j]) is Some && opt_text(row@[j])
                    == cell_of(trees[j])->Some_0,
        decreases items@.len() - i,
    {
        assert(trees[i as int] == json_tree(items@[i as int]));
        match cell_of_value(&items[i]) {
            Some(cell) => {
                row.push(cell);
            },
            None => {
                return None;
            },
        }
        i += 1;
    }
    assert(row_view(row@) =~= trees.map_values(|item: JsonTree| cell_of(item)->Some_0));
    Some(row)
}

/// The board that a `serde_json` value stands for.
fn board_of_value(value: &serde_json::Value) -> (board: Option<Vec<Vec<Option<String>>>>)
    ensures
        match board_of(json_tree(*value)) {
            Some(b) => board is Some && wire_view(&board->Some_0) == b,
            None => board is None,
        },
{
    let items = match items_of(value) {
        Some(items) => items,
        None => {
            return None;
        },
    };
    let ghost trees = json_trees(items@);
    let mut board: Vec<Vec<Option<String>>> = Vec::new();
    let mut i: usize = 0;
    while i < items.len()
        invariant
            i <= items@.len(),
            trees == json_trees(items@),
            json_tree(*value) == JsonTree::Array(trees),
            board@.len() == i,
            forall|j: int|
                0 <= j < i ==> row_of(#[trigger] trees[j]) is Some && row_view(board@[j]@)
                    == row_of(trees[j])->Some_0,
        decreases items@.len() - i,
    {
        assert(trees[i as int] == json_tree(items@[i as int]));
        match row_of_value(&items[i]) {
            Some(row) => {
                board.push(row);
            },
            None => {
                return None;
            },
        }
        i += 1;
    }
    proof {
        let decoded = trees.map_values(|row: JsonTree| row_of(row)->Some_0);
        assert forall|j: int| 0 <= j < board@.len() implies wire_view(&board)[j] == decoded[j] by {
            assert(wire_view(&board)[j] =~= row_view(board@[j]@));
        }
        assert(wire_view(&board) =~= decoded);
    }
    Some(board)
}

/// The member `name` of `value` as a text that may be missing or `null`.
fn read_optional_text(value: &serde_json::Value, name: &str) -> (text: Option<Option<String>>)
    ensures
        match optional_text_field(json_tree(*value), name@) {
            Some(t) => text is Some && opt_text(text->Some_0) == t,
            None => text is None,
        },
{
    match member(value, name) {
        Some(found) => cell_of_value(found),
        None => Some(None),
    }
}

/// The server message that a `serde_json` value stands for, if it stands
/// for one.
pub fn server_message_of_value(value: &serde_json::Value) -> (message: Option<ServerMessage>)
    ensures
        server_view(message) == server_of_tree(json_tree(*value)),
{
    let tag = match read_text(value, "type") {
        Some(tag) => tag,
        None => {
            return None;
        },
    };
    if str_eq(tag, "success") {
        match read_text(value, "message") {
            Some(message) => Some(ServerMessage::Success { message: message.to_string() }),
            None => None,
        }
    } else if str_eq(tag, "error") {
        match read_text(value, "message") {
            Some(message) => Some(ServerMessage::Error { message: message.to_string() }),
            None => None,
        }
    } else if str_eq(tag, "match_found") {
        match read_text(value, "opponent") {
            Some(opponent) => Some(ServerMessage::MatchFound { opponent: opponent.to_string() }),
            None => None,
        }
    } else if str_eq(tag, "game_state") {
        match member(value, "board") {
            Some(cells) => {
                let board = board_of_value(cells);
                let current_player = read_text(value, "current_player");
                let your_color = read_text(value, "your_color");
                match (board, current_player, your_color) {
                    (Some(board), Some(current_player), Some(your_color)) => Some(
                        ServerMessage::GameState {
                            board,
                            current_player: current_player.to_string(),
                            your_color: your_color.to_string(),
                        },
                    ),
                    _ => None,
                }
            },
            None => None,
        }
    } else if str_eq(tag, "game_over") {
        let winner = read_optional_text(value, "winner");
        let reason = read_text(value, "reason");
        match (winner, reason) {
            (Some(winner), Some(reason)) => Some(
                ServerMessage::GameOver { winner, reason: reason.to_string() },
            ),
            _ => None,
        }
    } else {
        None
    }
}

/// Reads a server message from JSON text. Nothing comes back where the
/// text is no JSON, names no kind of message, or lacks a field of the
/// message it names.
pub fn decode_server_message(text: &str) -> (message: Option<ServerMessage>)
    ensures
        server_view(message) == server_decoding(text@),
{
    match parse(text) {
        Some(value) => server_message_of_value(&value),
        None => None,
    }
}

} // verus!
