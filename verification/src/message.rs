//! The messages that travel between a client and the server, and the
//! events that a session hands to the coordinator.

use crate::game::{opt_text, wire_view};
use vstd::prelude::*;

verus! {

/// A message from a client to the server.
#[derive(Debug, PartialEq, Eq)]
pub enum ClientMessage {
    /// Asks to be known under a user name.
    Authenticate { username: String },
    /// Asks to wait for an opponent.
    JoinQueue,
    /// Gives up waiting for an opponent.
    LeaveQueue,
    /// Plays a disk at column `x`, row `y`.
    MakeMove { x: usize, y: usize },
    /// Gives the running game up.
    Resign,
    /// Shows that the client is alive.
    Heartbeat,
}

/// The model of a [`ClientMessage`].
pub enum ClientMessageView {
    Authenticate { username: Seq<char> },
    JoinQueue,
    LeaveQueue,
    MakeMove { x: usize, y: usize },
    Resign,
    Heartbeat,
}

impl View for ClientMessage {
    type V = ClientMessageView;

    open spec fn view(&self) -> ClientMessageView {
        match self {
            ClientMessage::Authenticate { username } => ClientMessageView::Authenticate {
                username: username@,
            },
            ClientMessage::JoinQueue => ClientMessageView::JoinQueue,
            ClientMessage::LeaveQueue => ClientMessageView::LeaveQueue,
            ClientMessage::MakeMove { x, y } => ClientMessageView::MakeMove { x: *x, y: *y },
            ClientMessage::Resign => ClientMessageView::Resign,
            ClientMessage::Heartbeat => ClientMessageView::Heartbeat,
        }
    }
}

/// A message from the server to a client.
#[derive(Debug, PartialEq, Eq)]
pub enum ServerMessage {
    /// A request has succeeded, or something worth telling has happened.
    Success { message: String },
    /// A request was refused.
    Error { message: String },
    /// An opponent was found; `opponent` is their display name.
    MatchFound { opponent: String },
    /// The board and whose turn it is, for the player of `your_color`.
    GameState { board: Vec<Vec<Option<String>>>, current_player: String, your_color: String },
    /// The game has ended; `winner` is the winner's display name, or
    /// nothing on a draw.
    GameOver { winner: Option<String>, reason: String },
}

/// The model of a [`ServerMessage`].
pub enum ServerMessageView {
    Success { message: Seq<char> },
    Error { message: Seq<char> },
    MatchFound { opponent: Seq<char> },
    GameState {
        board: Seq<Seq<Option<Seq<char>>>>,
        current_player: Seq<char>,
        your_color: Seq<char>,
    },
    GameOver { winner: Option<Seq<char>>, reason: Seq<char> },
}

impl View for ServerMessage {
    type V = ServerMessageView;

    open spec fn view(&self) -> ServerMessageView {
        match self {
            ServerMessage::Success { message } => ServerMessageView::Success { message: message@ },
            ServerMessage::Error { message } => ServerMessageView::Error { message: message@ },
            ServerMessage::MatchFound { opponent } => ServerMessageView::MatchFound {
                opponent: opponent@,
            },
            ServerMessage::GameState {
                board,
                current_player,
                your_color,
            } => ServerMessageView::GameState {
                board: wire_view(board),
                current_player: current_player@,
                your_color: your_color@,
            },
            ServerMessage::GameOver { winner, reason } => ServerMessageView::GameOver {
                winner: opt_text(*winner),
                reason: reason@,
            },
        }
    }
}

/// A session that has authenticated announces itself to the coordinator.
#[derive(Debug, PartialEq, Eq)]
pub struct Connect {
    pub session_id: String,
    pub username: String,
}

/// A session that has stopped takes leave of the coordinator.
#[derive(Debug, PartialEq, Eq)]
pub struct Disconnect {
    pub session_id: String,
}

/// A serialized message on its way to a session's socket.
#[derive(Debug, PartialEq, Eq)]
pub struct SendMessage {
    pub message: String,
}

/// A copy of a board in wire form.
pub fn clone_board(board: &Vec<Vec<Option<String>>>) -> (copy: Vec<Vec<Option<String>>>)
    ensures
        wire_view(&copy) == wire_view(board),
{
    let mut copy: Vec<Vec<Option<String>>> = Vec::new();
    let mut y: usize = 0;
    while y < board.len()
        invariant
            y <= board@.len(),
            copy@.len() == y,
            forall|r: int| 0 <= r < y ==> wire_view(&copy)[r] == wire_view(board)[r],
        decreases board@.len() - y,
    {
        let row = &board[y];
        let mut cells: Vec<Option<String>> = Vec::new();
        let mut x: usize = 0;
        while x < row.len()
            invariant
                x <= row@.len(),
                cells@.len() == x,
                forall|c: int| 0 <= c < x ==> opt_text(#[trigger] cells@[c]) == opt_text(row@[c]),
            decreases row@.len() - x,
        {
            let cell = match &row[x] {
                Some(text) => Some(text.clone()),
                None => None,
            };
            cells.push(cell);
            x += 1;
        }
        let ghost before = copy;
        copy.push(cells);
        proof {
            assert forall|r: int| 0 <= r < y + 1 implies wire_view(&copy)[r] == wire_view(
                board,
            )[r] by {
                if r < y {
                    assert(copy@[r] == before@[r]);
                    assert(wire_view(&copy)[r] =~= wire_view(&before)[r]);
                } else {
                    assert(wire_view(&copy)[r] =~= wire_view(board)[r]);
                }
            }
        }
        y += 1;
    }
    assert(wire_view(&copy) =~= wire_view(board));
    copy
}

impl Clone for ServerMessage {
    fn clone(&self) -> (copy: Self)
        ensures
            copy@ == self@,
    {
        match self {
            ServerMessage::Success { message } => ServerMessage::Success {
                message: message.clone(),
            },
            ServerMessage::Error { message } => ServerMessage::Error { message: message.clone() },
            ServerMessage::MatchFound { opponent } => ServerMessage::MatchFound {
                opponent: opponent.clone(),
            },
            ServerMessage::GameState {
                board,
                current_player,
                your_color,
            } => ServerMessage::GameState {
                board: clone_board(board),
                current_player: current_player.clone(),
                your_color: your_color.clone(),
            },
            ServerMessage::GameOver { winner, reason } => ServerMessage::GameOver {
                winner: match winner {
                    Some(name) => Some(name.clone()),
                    None => None,
                },
                reason: reason.clone(),
            },
        }
    }
}

/// The text of a serialized message that may be missing.
pub open spec fn frame_text(frame: Option<SendMessage>) -> Option<Seq<char>> {
    match frame {
        Some(f) => Some(f.message@),
        None => None,
    }
}

} // verus!
