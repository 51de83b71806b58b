//! What a client makes of the server's messages: which screen it shows,
//! what it knows of its connection, and the board with the moves that are
//! open to the player whose turn it is.

use crate::board::{
    calculate_valid_moves, grid_of, valid_moves_of, well_formed, DiskColor, Grid,
};
use crate::game::{opt_text, wire_view};
use crate::message::{ClientMessage, ClientMessageView, ServerMessage, ServerMessageView};
use crate::text::{blank, is_blank, str_eq};
use vstd::prelude::*;

verus! {

/// The screen that the client shows.
#[derive(Debug, Clone, Copy, PartialEq, Eq, Hash, Structural)]
pub enum GameState {
    Connecting,
    Login,
    Lobby,
    MatchSearch,
    InGame,
    GameOver,
}

impl Default for GameState {
    fn default() -> (state: Self)
        ensures
            state == GameState::Connecting,
    {
        GameState::Connecting
    }
}

/// What the client knows of its connection.
#[derive(Debug, PartialEq, Eq)]
pub struct ConnectionState {
    pub connected: bool,
    pub username: Option<String>,
    pub opponent: Option<String>,
    pub in_matchmaking: bool,
}

/// The model of a [`ConnectionState`].
pub struct ConnectionView {
    pub connected: bool,
    pub username: Option<Seq<char>>,
    pub opponent: Option<Seq<char>>,
    pub in_matchmaking: bool,
}

impl View for ConnectionState {
    type V = ConnectionView;

    open spec fn view(&self) -> ConnectionView {
        ConnectionView {
            connected: self.connected,
            username: opt_text(self.username),
            opponent: opt_text(self.opponent),
            in_matchmaking: self.in_matchmaking,
        }
    }
}

impl Default for ConnectionState {
    fn default() -> (state: Self)
        ensures
            state@ == (ConnectionView {
                connected: false,
                username: None,
                opponent: None,
                in_matchmaking: false,
            }),
    {
        ConnectionState { connected: false, username: None, opponent: None, in_matchmaking: false }
    }
}

/// The board as the client knows it.
#[derive(Debug, PartialEq, Eq)]
pub struct BoardState {
    pub board: Vec<Vec<Option<DiskColor>>>,
    pub current_player: DiskColor,
    pub your_color: Option<DiskColor>,
    pub valid_moves: Vec<(usize, usize)>,
}

/// The model of a [`BoardState`].
pub struct BoardView {
    pub board: Grid,
    pub current_player: DiskColor,
    pub your_color: Option<DiskColor>,
    pub valid_moves: Seq<(usize, usize)>,
}

impl View for BoardState {
    type V = BoardView;

    open spec fn view(&self) -> BoardView {
        BoardView {
            board: grid_of(&self.board),
            current_player: self.current_player,
            your_color: self.your_color,
            valid_moves: self.valid_moves@,
        }
    }
}

/// Something that has happened to the game and that the screens react to.
#[derive(Debug, PartialEq, Eq)]
pub enum GameEvent {
    GameOver { winner: Option<String>, reason: String },
}

/// The model of a [`GameEvent`].
pub enum GameEventView {
    GameOver { winner: Option<Seq<char>>, reason: Seq<char> },
}

impl View for GameEvent {
    type V = GameEventView;

    open spec fn view(&self) -> GameEventView {
        match self {
            GameEvent::GameOver { winner, reason } => GameEventView::GameOver {
                winner: opt_text(*winner),
                reason: reason@,
            },
        }
    }
}

/// The colour that a wire name stands for.
pub open spec fn color_named(name: Seq<char>) -> Option<DiskColor> {
    if name == "black"@ {
        Some(DiskColor::Black)
    } else if name == "white"@ {
        Some(DiskColor::White)
    } else {
        None
    }
}

/// The grid that a board in wire form stands for; a cell whose text names
/// no colour counts as empty.
pub open spec fn grid_named(board: Seq<Seq<Option<Seq<char>>>>) -> Grid {
    Seq::new(
        board.len(),
        |y: int|
            Seq::new(
                board[y].len(),
                |x: int|
                    match board[y][x] {
                        Some(name) => color_named(name),
                        None => None,
                    },
            ),
    )
}

/// The colour that a wire name stands for.
pub fn color_of_name(name: &str) -> (color: Option<DiskColor>)
    ensures
        color == color_named(name@),
{
    if str_eq(name, "black") {
        Some(DiskColor::Black)
    } else if str_eq(name, "white") {
        Some(DiskColor::White)
    } else {
        None
    }
}

/// The board of nested vectors that a board in wire form stands for.
pub fn board_of_wire(server_board: &Vec<Vec<Option<String>>>) -> (board: Vec<Vec<Option<DiskColor>>>)
    ensures
        grid_of(&board) == grid_named(wire_view(server_board)),
{
    let ghost wire = wire_view(server_board);
    let mut board: Vec<Vec<Option<DiskColor>>> = Vec::new();
    let mut y: usize = 0;
    while y < server_board.len()
        invariant
            y <= server_board@.len(),
            wire == wire_view(server_board),
            board@.len() == y,
            forall|r: int| 0 <= r < y ==> (#[trigger] board@[r])@ == grid_named(wire)[r],
        decreases server_board@.len() - y,
    {
        let row = &server_board[y];
        let mut cells: Vec<Option<DiskColor>> = Vec::new();
        let mut x: usize = 0;
        while x < row.len()
            invariant
                x <= row@.len(),
                y < server_board@.len(),
                wire == wire_view(server_board),
                *row == server_board@[y as int],
                cells@.len() == x,
                forall|c: int| 0 <= c < x ==> #[trigger] cells@[c] == grid_named(wire)[y as int][c],
            decreases row@.len() - x,
        {
            let cell = match &row[x] {
                Some(name) => color_of_name(name.as_str()),
                None => None,
            };
            cells.push(cell);
            x += 1;
        }
        assert(cells@ =~= grid_named(wire)[y as int]);
        board.push(cells);
        y += 1;
    }
    assert(grid_of(&board) =~~= grid_named(wire));
    board
}

impl BoardView {
    /// The board that a snapshot of the game brings: its disks, whose turn
    /// it is (black where the name is no colour), the player's own colour,
    /// and the moves that are open to the player whose turn it is.
    pub open spec fn of_snapshot(
        board: Seq<Seq<Option<Seq<char>>>>,
        current_player: Seq<char>,
        your_color: Seq<char>,
    ) -> BoardView {
        let grid = grid_named(board);
        let turn = match color_named(current_player) {
            Some(color) => color,
            None => DiskColor::Black,
        };
        BoardView {
            board: grid,
            current_player: turn,
            your_color: color_named(your_color),
            valid_moves: valid_moves_of(grid, turn),
        }
    }

    /// Whether it is the turn of the client's own player.
    pub open spec fn your_turn(self) -> bool {
        self.your_color == Some(self.current_player)
    }
}

/// Takes a snapshot of the game over.
pub fn update_board_state(
    board_state: &mut BoardState,
    server_board: Vec<Vec<Option<String>>>,
    current_player: String,
    your_color: String,
)
    requires
        well_formed(grid_named(wire_view(&server_board))),
    ensures
        final(board_state)@ == BoardView::of_snapshot(
            wire_view(&server_board),
            current_player@,
            your_color@,
        ),
{
    board_state.board = board_of_wire(&server_board);
    board_state.current_player = match color_of_name(current_player.as_str()) {
        Some(color) => color,
        None => DiskColor::Black,
    };
    board_state.your_color = color_of_name(your_color.as_str());
    board_state.valid_moves = calculate_valid_moves(
        &board_state.board,
        &board_state.current_player,
    );
}

/// Whether `part` occurs in `text` as a run of characters.
pub open spec fn occurs_in(text: Seq<char>, part: Seq<char>) -> bool {
    exists|i: int|
        0 <= i && i + part.len() <= text.len() && #[trigger] text.subrange(i, i + part.len())
            == part
}

/// `str::contains` with a string pattern: whether the pattern occurs in
/// the text.
#[verifier::external_body]
fn text_contains(text: &str, part: &str) -> (found: bool)
    ensures
        found == occurs_in(text@, part@),
{
    text.contains(part)
}

/// What the client tells its player on joining the queue begins like this.
pub const JOINED_NOTICE: &'static str = "Joined matchmaking queue";

/// What the client tells its player on leaving the queue begins like this.
pub const LEFT_NOTICE: &'static str = "Left matchmaking queue";

/// Whether a board in wire form has eight rows of eight cells.
pub fn is_full_board(server_board: &Vec<Vec<Option<String>>>) -> (full: bool)
    ensures
        full == well_formed(grid_named(wire_view(server_board))),
{
    let ghost grid = grid_named(wire_view(server_board));
    if server_board.len() != 8 {
        return false;
    }
    let mut y: usize = 0;
    while y < 8
        invariant
            y <= 8,
            server_board@.len() == 8,
            grid == grid_named(wire_view(server_board)),
            forall|r: int| 0 <= r < y ==> (#[trigger] grid[r]).len() == 8,
        decreases 8 - y,
    {
        if server_board[y].len() != 8 {
            assert(grid[y as int].len() != 8);
            return false;
        }
        y += 1;
    }
    true
}

/// How the client reacts to a message: the screen to go to and the event
/// to raise, if any.
#[derive(Debug, PartialEq, Eq)]
pub struct Reaction {
    pub next_state: Option<GameState>,
    pub event: Option<GameEvent>,
}

/// The model of an optional event.
pub open spec fn event_view(event: Option<GameEvent>) -> Option<GameEventView> {
    match event {
        Some(e) => Some(e@),
        None => None,
    }
}

/// The screen that a message of the server leads to, if it leads to one.
pub open spec fn screen_after(message: ServerMessageView) -> Option<GameState> {
    match message {
        ServerMessageView::Success { message } => if occurs_in(message, JOINED_NOTICE@) {
            Some(GameState::MatchSearch)
        } else if occurs_in(message, LEFT_NOTICE@) {
            Some(GameState::Lobby)
        } else {
            None
        },
        ServerMessageView::MatchFound { .. } => Some(GameState::InGame),
        ServerMessageView::GameOver { .. } => Some(GameState::GameOver),
        _ => None,
    }
}

/// What the client knows of its connection after a message of the server.
pub open spec fn connection_after(
    connection: ConnectionView,
    message: ServerMessageView,
) -> ConnectionView {
    match message {
        ServerMessageView::Success { message } => if occurs_in(message, JOINED_NOTICE@) {
            ConnectionView { in_matchmaking: true, ..connection }
        } else if occurs_in(message, LEFT_NOTICE@) {
            ConnectionView { in_matchmaking: false, ..connection }
        } else {
            connection
        },
        ServerMessageView::MatchFound { opponent } => ConnectionView {
            opponent: Some(opponent),
            in_matchmaking: false,
            ..connection
        },
        _ => connection,
    }
}

/// The board as the client knows it after a message of the server. A
/// snapshot whose board has not eight rows of eight cells is ignored.
pub open spec fn board_after(board: BoardView, message: ServerMessageView) -> BoardView {
    match message {
        ServerMessageView::GameState {
            board: cells,
            current_player,
            your_color,
        } => if well_formed(grid_named(cells)) {
            BoardView::of_snapshot(cells, current_player, your_color)
        } else {
            board
        },
        _ => board,
    }
}

/// The event that a message of the server raises, if it raises one.
pub open spec fn event_after(message: ServerMessageView) -> Option<GameEventView> {
    match message {
        ServerMessageView::GameOver { winner, reason } => Some(
            GameEventView::GameOver { winner, reason },
        ),
        _ => None,
    }
}

/// Deals with a message of the server: a notice of joining or leaving the
/// queue, the opponent found, a snapshot of the game, or its end.
pub fn handle_server_message(
    connection: &mut ConnectionState,
    board_state: &mut BoardState,
    message: ServerMessage,
) -> (reaction: Reaction)
    ensures
        final(connection)@ == connection_after(old(connection)@, message@),
        final(board_state)@ == board_after(old(board_state)@, message@),
        reaction.next_state == screen_after(message@),
        event_view(reaction.event) == event_after(message@),
{
    match message {
        ServerMessage::Success { message } => {
            if text_contains(message.as_str(), JOINED_NOTICE) {
                connection.in_matchmaking = true;
                Reaction { next_state: Some(GameState::MatchSearch), event: None }
            } else if text_contains(message.as_str(), LEFT_NOTICE) {
                connection.in_matchmaking = false;
                Reaction { next_state: Some(GameState::Lobby), event: None }
            } else {
                Reaction { next_state: None, event: None }
            }
        },
        ServerMessage::Error { message: _ } => Reaction { next_state: None, event: None },
        ServerMessage::MatchFound { opponent } => {
            connection.opponent = Some(opponent);
            connection.in_matchmaking = false;
            Reaction { next_state: Some(GameState::InGame), event: None }
        },
        ServerMessage::GameState { board, current_player, your_color } => {
            if is_full_board(&board) {
                update_board_state(board_state, board, current_player, your_color);
            }
            Reaction { next_state: None, event: None }
        },
        ServerMessage::GameOver { winner, reason } => Reaction {
            next_state: Some(GameState::GameOver),
            event: Some(GameEvent::GameOver { winner, reason }),
        },
    }
}

/// Deals with the messages of the server that have arrived, oldest first,
/// and answers with the reaction to each. A message is dealt with on what
/// the messages before it have left.
pub fn handle_server_messages(
    connection: &mut ConnectionState,
    board_state: &mut BoardState,
    messages: Vec<ServerMessage>,
) -> (reactions: Vec<Reaction>)
    ensures
        reactions@.len() == messages@.len(),
        final(connection)@ == connection_after_all(old(connection)@, message_views(messages@)),
        final(board_state)@ == board_after_all(old(board_state)@, message_views(messages@)),
        forall|i: int|
            0 <= i < messages@.len() ==> (#[trigger] reactions@[i]).next_state == screen_after(
                messages@[i]@,
            ) && event_view(reactions@[i].event) == event_after(messages@[i]@),
{
    let ghost given = message_views(messages@);
    let mut waiting = messages;
    let mut reactions: Vec<Reaction> = Vec::new();
    proof {
        assert(given.take(0) =~= Seq::<ServerMessageView>::empty());
    }
    while waiting.len() > 0
        invariant
            reactions@.len() + waiting@.len() == given.len(),
            forall|i: int|
                0 <= i < waiting@.len() ==> (#[trigger] waiting@[i])@ == given[reactions@.len()
                    + i],
            connection@ == connection_after_all(
                old(connection)@,
                given.take(reactions@.len() as int),
            ),
            board_state@ == board_after_all(old(board_state)@, given.take(reactions@.len() as int)),
            forall|i: int|
                0 <= i < reactions@.len() ==> (#[trigger] reactions@[i]).next_state
                    == screen_after(given[i]) && event_view(reactions@[i].event) == event_after(
                    given[i],
                ),
        decreases waiting@.len(),
    {
        let ghost done = reactions@.len() as int;
        let message = waiting.remove(0);
        assert(message@ == given[done]);
        let reaction = handle_server_message(connection, board_state, message);
        reactions.push(reaction);
        proof {
            assert(given.take(done + 1).drop_last() =~= given.take(done));
            assert(given.take(done + 1).last() == given[done]);
        }
    }
    proof {
        assert(given.take(given.len() as int) =~= given);
    }
    reactions
}

/// The models of a sequence of messages.
pub open spec fn message_views(messages: Seq<ServerMessage>) -> Seq<ServerMessageView> {
    messages.map_values(|m: ServerMessage| m@)
}

/// What the client knows of its connection after the messages, oldest
/// first.
pub open spec fn connection_after_all(
    connection: ConnectionView,
    messages: Seq<ServerMessageView>,
) -> ConnectionView
    decreases messages.len(),
{
    if messages.len() == 0 {
        connection
    } else {
        connection_after(connection_after_all(connection, messages.drop_last()), messages.last())
    }
}

/// The board as the client knows it after the messages, oldest first.
pub open spec fn board_after_all(board: BoardView, messages: Seq<ServerMessageView>) -> BoardView
    decreases messages.len(),
{
    if messages.len() == 0 {
        board
    } else {
        board_after(board_after_all(board, messages.drop_last()), messages.last())
    }
}

/// The cells to mark as open to the player: the legal moves while it is
/// the player's own turn, none while it is not.
pub fn highlight_valid_moves(board_state: &BoardState) -> (cells: Vec<(usize, usize)>)
    ensures
        cells@ == if board_state@.your_turn() {
            board_state@.valid_moves
        } else {
            Seq::empty()
        },
{
    let mut cells: Vec<(usize, usize)> = Vec::new();
    let yours = match board_state.your_color {
        Some(color) => color == board_state.current_player,
        None => false,
    };
    if yours {
        let mut i: usize = 0;
        while i < board_state.valid_moves.len()
            invariant
                i <= board_state.valid_moves@.len(),
                cells@ == board_state.valid_moves@.take(i as int),
            decreases board_state.valid_moves@.len() - i,
        {
            cells.push(board_state.valid_moves[i]);
            assert(cells@ =~= board_state.valid_moves@.take(i + 1));
            i += 1;
        }
        assert(board_state.valid_moves@.take(i as int) =~= board_state.valid_moves@);
    }
    cells
}

/// What a click on the cell `(x, y)` of the board asks the server for: the
/// move, where it is the player's own turn and the cell is one of the
/// moves that are open; nothing otherwise.
pub fn handle_board_click(board_state: &BoardState, x: usize, y: usize) -> (request: Option<
    ClientMessage,
>)
    ensures
        request == if board_state@.your_turn() && board_state@.valid_moves.contains((x, y)) {
            Some(ClientMessage::MakeMove { x, y })
        } else {
            None
        },
{
    let yours = match board_state.your_color {
        Some(color) => color == board_state.current_player,
        None => false,
    };
    if !yours {
        return None;
    }
    let mut i: usize = 0;
    while i < board_state.valid_moves.len()
        invariant
            yours,
            board_state@.your_turn(),
            i <= board_state.valid_moves@.len(),
            forall|j: int| 0 <= j < i ==> board_state.valid_moves@[j] != (x, y),
        decreases board_state.valid_moves@.len() - i,
    {
        let cell = board_state.valid_moves[i];
        if cell.0 == x && cell.1 == y {
            assert(board_state.valid_moves@[i as int] == (x, y));
            return Some(ClientMessage::MakeMove { x, y });
        }
        i += 1;
    }
    None
}

/// The word for a colour in the line above the board.
pub open spec fn color_word(color: Option<DiskColor>) -> Seq<char> {
    match color {
        Some(DiskColor::Black) => "Black"@,
        Some(DiskColor::White) => "White"@,
        None => "Unknown"@,
    }
}

/// The text of an optional name, or `fallback` where there is none.
pub open spec fn name_or(name: Option<Seq<char>>, fallback: Seq<char>) -> Seq<char> {
    match name {
        Some(text) => text,
        None => fallback,
    }
}

/// The line above the board: the player's colour and name, the opponent's
/// name, and whose turn it is.
pub open spec fn game_info(board: BoardView, connection: ConnectionView) -> Seq<char> {
    let opponent = name_or(connection.opponent, "Opponent"@);
    color_word(board.your_color) + " ("@ + name_or(connection.username, "You"@) + ") vs "@
        + opponent + " - "@ + if board.your_turn() {
        "Your turn"@
    } else {
        opponent + "'s turn"@
    }
}

/// The line above the board: the player's colour and name, the opponent's
/// name, and whose turn it is.
pub fn update_game_info_text(board_state: &BoardState, connection: &ConnectionState) -> (text:
    String)
    ensures
        text@ == game_info(board_state@, connection@),
{
    let your_color_text = match board_state.your_color {
        Some(DiskColor::Black) => "Black",
        Some(DiskColor::White) => "White",
        None => "Unknown",
    };
    let username = match &connection.username {
        Some(name) => name.as_str(),
        None => "You",
    };
    let opponent_name = match &connection.opponent {
        Some(name) => name.as_str(),
        None => "Opponent",
    };
    let yours = match board_state.your_color {
        Some(color) => color == board_state.current_player,
        None => false,
    };
    let turn_text = if yours {
        String::from_str("Your turn")
    } else {
        String::from_str(opponent_name).concat("'s turn")
    };
    let text = String::from_str(your_color_text).concat(" (").concat(username).concat(
        ") vs ",
    ).concat(opponent_name).concat(" - ").concat(turn_text.as_str());
    assert(text@ =~= game_info(board_state@, connection@));
    text
}

/// The buttons of the client's screens.
#[derive(Debug, Clone, Copy, PartialEq, Eq, Structural)]
pub enum Button {
    Login,
    FindMatch,
    CancelMatch,
    Resign,
    ReturnToLobby,
}

/// What pressing a button comes to: the request to send to the server and
/// the screen to go to, if any.
#[derive(Debug, PartialEq, Eq)]
pub struct Press {
    pub request: Option<ClientMessage>,
    pub next_state: Option<GameState>,
}

/// The model of an optional request.
pub open spec fn request_view(request: Option<ClientMessage>) -> Option<ClientMessageView> {
    match request {
        Some(m) => Some(m@),
        None => None,
    }
}

/// The request that pressing a button sends, given what stands in the
/// field for the user name and whether there is a connection to send on.
pub open spec fn request_of(button: Button, username: Seq<char>, online: bool) -> Option<
    ClientMessageView,
> {
    if !online {
        None
    } else {
        match button {
            Button::Login => if blank(username) {
                None
            } else {
                Some(ClientMessageView::Authenticate { username })
            },
            Button::FindMatch => Some(ClientMessageView::JoinQueue),
            Button::CancelMatch => Some(ClientMessageView::LeaveQueue),
            Button::Resign => Some(ClientMessageView::Resign),
            Button::ReturnToLobby => None,
        }
    }
}

/// The screen that pressing a button leads to.
pub open spec fn screen_of(button: Button, username: Seq<char>, online: bool) -> Option<GameState> {
    match button {
        Button::Login => if online && !blank(username) {
            Some(GameState::Lobby)
        } else {
            None
        },
        Button::ReturnToLobby => Some(GameState::Lobby),
        _ => None,
    }
}

/// A button was pressed. Logging in with a name that is not blank makes
/// the name the user's own, whether or not there is a connection.
pub fn handle_button_interactions(
    button: Button,
    username_input: &str,
    online: bool,
    connection: &mut ConnectionState,
) -> (press: Press)
    ensures
        request_view(press.request) == request_of(button, username_input@, online),
        press.next_state == screen_of(button, username_input@, online),
        final(connection)@ == if button == Button::Login && !blank(username_input@) {
            ConnectionView { username: Some(username_input@), ..old(connection)@ }
        } else {
            old(connection)@
        },
{
    match button {
        Button::Login => {
            if is_blank(username_input) {
                Press { request: None, next_state: None }
            } else {
                connection.username = Some(username_input.to_string());
                if online {
                    Press {
                        request: Some(
                            ClientMessage::Authenticate { username: username_input.to_string() },
                        ),
                        next_state: Some(GameState::Lobby),
                    }
                } else {
                    Press { request: None, next_state: None }
                }
            }
        },
        Button::FindMatch => Press {
            request: if online {
                Some(ClientMessage::JoinQueue)
            } else {
                None
            },
            next_state: None,
        },
        Button::CancelMatch => Press {
            request: if online {
                Some(ClientMessage::LeaveQueue)
            } else {
                None
            },
            next_state: None,
        },
        Button::Resign => Press {
            request: if online {
                Some(ClientMessage::Resign)
            } else {
                None
            },
            next_state: None,
        },
        Button::ReturnToLobby => Press { request: None, next_state: Some(GameState::Lobby) },
    }
}

/// Milliseconds between two heartbeats of a client.
pub const CLIENT_HEARTBEAT_MS: u64 = 5000;

/// Lets `delta` milliseconds pass on the heartbeat timer. When the timer
/// has reached the interval it starts anew and a heartbeat is due.
pub fn send_heartbeat(timer: &mut u64, delta: u64) -> (request: Option<ClientMessage>)
    ensures
        *old(timer) + delta >= CLIENT_HEARTBEAT_MS ==> request == Some(ClientMessage::Heartbeat)
            && *final(timer) == 0,
        *old(timer) + delta < CLIENT_HEARTBEAT_MS ==> request.is_none() && *final(timer)
            == *old(timer) + delta,
{
    let elapsed = timer.saturating_add(delta);
    if elapsed >= CLIENT_HEARTBEAT_MS {
        *timer = 0;
        Some(ClientMessage::Heartbeat)
    } else {
        *timer = elapsed;
        None
    }
}

} // verus!
