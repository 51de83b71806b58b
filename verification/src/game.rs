//! One game of Reversi between two players: whose turn it is, the moves
//! played, and how the game ends.
//!
//! A game is modelled by [`GameView`]; every operation is stated as a
//! function on that model.

use crate::board::{
    after_move, can_move, count_disks, disk_count, flip_disks, grid_of, has_valid_move,
    is_valid_move, lemma_at_most_64_disks, lemma_move_only_turns_opponents, lemma_place_then_flip,
    on_board, set_disk, valid_move, well_formed, DiskColor, Grid, BOARD_SIZE,
};
use crate::text::str_eq;
use vstd::prelude::*;

verus! {

/// The text that an optional string holds.
pub open spec fn opt_text(s: Option<String>) -> Option<Seq<char>> {
    match s {
        Some(t) => Some(t@),
        None => None,
    }
}

/// The starting position: white on `(3, 3)` and `(4, 4)`, black on `(4, 3)`
/// and `(3, 4)`, every other cell empty.
pub open spec fn initial_grid() -> Grid {
    Seq::new(
        8,
        |y: int|
            Seq::new(
                8,
                |x: int|
                    if (x == 3 && y == 3) || (x == 4 && y == 4) {
                        Some(DiskColor::White)
                    } else if (x == 4 && y == 3) || (x == 3 && y == 4) {
                        Some(DiskColor::Black)
                    } else {
                        None
                    },
            ),
    )
}

/// A board in wire form shows each disk of `g` by the name of its colour.
pub open spec fn wire_board(g: Grid) -> Seq<Seq<Option<Seq<char>>>> {
    Seq::new(
        g.len(),
        |y: int|
            Seq::new(
                g[y].len(),
                |x: int|
                    match g[y][x] {
                        Some(c) => Some(c.name()),
                        None => None,
                    },
            ),
    )
}

/// The texts of the cells of a board in wire form.
pub open spec fn wire_view(board: &Vec<Vec<Option<String>>>) -> Seq<Seq<Option<Seq<char>>>> {
    Seq::new(
        board@.len(),
        |y: int| Seq::new(board@[y]@.len(), |x: int| opt_text(board@[y]@[x])),
    )
}

/// Why a move is refused.
#[derive(Clone, Copy, Debug, PartialEq, Eq, Structural)]
pub enum MoveError {
    GameAlreadyOver,
    NotAParticipant,
    NotYourTurn,
    OutOfBounds,
    InvalidMove,
}

impl MoveError {
    /// The text that reports the refusal to the player.
    pub open spec fn text(self) -> Seq<char> {
        match self {
            MoveError::GameAlreadyOver => "Game is already over"@,
            MoveError::NotAParticipant => "You are not a player in this game"@,
            MoveError::NotYourTurn => "It's not your turn"@,
            MoveError::OutOfBounds => "Invalid coordinates"@,
            MoveError::InvalidMove => "Invalid move"@,
        }
    }

    /// The text that reports the refusal to the player.
    pub fn message(&self) -> (text: String)
        ensures
            text@ == self.text(),
    {
        match self {
            MoveError::GameAlreadyOver => "Game is already over".to_string(),
            MoveError::NotAParticipant => "You are not a player in this game".to_string(),
            MoveError::NotYourTurn => "It's not your turn".to_string(),
            MoveError::OutOfBounds => "Invalid coordinates".to_string(),
            MoveError::InvalidMove => "Invalid move".to_string(),
        }
    }
}

/// One move of the history.
#[derive(Clone, Debug, PartialEq, Eq)]
pub struct GameMove {
    pub player_id: String,
    pub x: usize,
    pub y: usize,
    pub color: DiskColor,
}

/// The model of a [`GameMove`].
pub struct GameMoveView {
    pub player_id: Seq<char>,
    pub x: int,
    pub y: int,
    pub color: DiskColor,
}

impl View for GameMove {
    type V = GameMoveView;

    open spec fn view(&self) -> GameMoveView {
        GameMoveView {
            player_id: self.player_id@,
            x: self.x as int,
            y: self.y as int,
            color: self.color,
        }
    }
}

/// A snapshot of a game as it is shown to the players.
#[derive(Clone, Debug, PartialEq, Eq)]
pub struct GameState {
    pub board: Vec<Vec<Option<String>>>,
    pub current_player: String,
    pub is_game_over: bool,
    pub winner: Option<String>,
    pub black_count: usize,
    pub white_count: usize,
    pub black_can_move: bool,
    pub white_can_move: bool,
}

/// The model of a [`GameState`].
pub struct GameStateView {
    pub board: Seq<Seq<Option<Seq<char>>>>,
    pub current_player: Seq<char>,
    pub is_game_over: bool,
    pub winner: Option<Seq<char>>,
    pub black_count: nat,
    pub white_count: nat,
    pub black_can_move: bool,
    pub white_can_move: bool,
}

impl View for GameState {
    type V = GameStateView;

    open spec fn view(&self) -> GameStateView {
        GameStateView {
            board: wire_view(&self.board),
            current_player: self.current_player@,
            is_game_over: self.is_game_over,
            winner: opt_text(self.winner),
            black_count: self.black_count as nat,
            white_count: self.white_count as nat,
            black_can_move: self.black_can_move,
            white_can_move: self.white_can_move,
        }
    }
}

/// The model of a [`Game`].
pub struct GameView {
    pub game_id: Seq<char>,
    pub black_player_id: Seq<char>,
    pub black_player_name: Seq<char>,
    pub white_player_id: Seq<char>,
    pub white_player_name: Seq<char>,
    pub board: Grid,
    pub current_color: DiskColor,
    pub is_game_over: bool,
    pub winner: Option<Seq<char>>,
    pub move_history: Seq<GameMoveView>,
}

impl GameView {
    /// A game that has just been created for the two players.
    pub open spec fn fresh(
        game_id: Seq<char>,
        black_player_id: Seq<char>,
        black_player_name: Seq<char>,
        white_player_id: Seq<char>,
        white_player_name: Seq<char>,
    ) -> GameView {
        GameView {
            game_id,
            black_player_id,
            black_player_name,
            white_player_id,
            white_player_name,
            board: initial_grid(),
            current_color: DiskColor::Black,
            is_game_over: false,
            winner: None,
            move_history: Seq::empty(),
        }
    }

    /// The colour that `player` plays, if they take part in the game.
    pub open spec fn color_of(self, player: Seq<char>) -> Option<DiskColor> {
        if player == self.black_player_id {
            Some(DiskColor::Black)
        } else if player == self.white_player_id {
            Some(DiskColor::White)
        } else {
            None
        }
    }

    /// Whether `player` is one of the two players.
    pub open spec fn has_player(self, player: Seq<char>) -> bool {
        player == self.black_player_id || player == self.white_player_id
    }

    /// The id of the player who holds more disks, or nobody on equal counts.
    pub open spec fn winner_by_count(self) -> Option<Seq<char>> {
        let black = disk_count(self.board, DiskColor::Black);
        let white = disk_count(self.board, DiskColor::White);
        if black > white {
            Some(self.black_player_id)
        } else if white > black {
            Some(self.white_player_id)
        } else {
            None
        }
    }

    /// The game once it has ended on the board as it stands.
    pub open spec fn ended(self) -> GameView {
        GameView { is_game_over: true, winner: self.winner_by_count(), ..self }
    }

    /// The game after the turn has gone on from the player who just moved:
    /// to the opponent if they can move, else back to the mover if they
    /// can, else the game has ended.
    pub open spec fn turn_passed(self) -> GameView {
        let next = self.current_color.flipped();
        if can_move(self.board, next) {
            GameView { current_color: next, ..self }
        } else if can_move(self.board, self.current_color) {
            self
        } else {
            self.ended()
        }
    }

    /// The first reason, in this order, for which a move of `player` to
    /// `(x, y)` is refused; `None` when the move is accepted.
    pub open spec fn move_error(self, player: Seq<char>, x: int, y: int) -> Option<MoveError> {
        if self.is_game_over {
            Some(MoveError::GameAlreadyOver)
        } else if self.color_of(player) is None {
            Some(MoveError::NotAParticipant)
        } else if self.color_of(player) != Some(self.current_color) {
            Some(MoveError::NotYourTurn)
        } else if !on_board(x, y) {
            Some(MoveError::OutOfBounds)
        } else if !valid_move(self.board, x, y, self.current_color) {
            Some(MoveError::InvalidMove)
        } else {
            None
        }
    }

    /// The game after the player to move has played `(x, y)`.
    pub open spec fn moved(self, player: Seq<char>, x: int, y: int) -> GameView {
        GameView {
            board: after_move(self.board, x, y, self.current_color),
            move_history: self.move_history.push(
                GameMoveView { player_id: player, x, y, color: self.current_color },
            ),
            ..self
        }.turn_passed()
    }

    /// The reason for which a resignation of `player` is refused, if any.
    pub open spec fn resign_error(self, player: Seq<char>) -> Option<MoveError> {
        if self.is_game_over {
            Some(MoveError::GameAlreadyOver)
        } else if !self.has_player(player) {
            Some(MoveError::NotAParticipant)
        } else {
            None
        }
    }

    /// The game after `player` has resigned: the opponent has won.
    pub open spec fn resigned(self, player: Seq<char>) -> GameView {
        GameView {
            is_game_over: true,
            winner: if player == self.black_player_id {
                Some(self.white_player_id)
            } else {
                Some(self.black_player_id)
            },
            ..self
        }
    }

    /// The snapshot that the players are shown.
    pub open spec fn state(self) -> GameStateView {
        GameStateView {
            board: wire_board(self.board),
            current_player: self.current_color.name(),
            is_game_over: self.is_game_over,
            winner: self.winner,
            black_count: disk_count(self.board, DiskColor::Black),
            white_count: disk_count(self.board, DiskColor::White),
            black_can_move: can_move(self.board, DiskColor::Black),
            white_can_move: can_move(self.board, DiskColor::White),
        }
    }
}

/// A game between a black and a white player.
pub struct Game {
    game_id: String,
    black_player_id: String,
    black_player_name: String,
    white_player_id: String,
    white_player_name: String,
    board: Vec<Vec<Option<DiskColor>>>,
    current_color: DiskColor,
    is_game_over: bool,
    winner: Option<String>,
    move_history: Vec<GameMove>,
}

impl View for Game {
    type V = GameView;

    closed spec fn view(&self) -> GameView {
        GameView {
            game_id: self.game_id@,
            black_player_id: self.black_player_id@,
            black_player_name: self.black_player_name@,
            white_player_id: self.white_player_id@,
            white_player_name: self.white_player_name@,
            board: grid_of(&self.board),
            current_color: self.current_color,
            is_game_over: self.is_game_over,
            winner: opt_text(self.winner),
            move_history: self.move_history@.map_values(|m: GameMove| m@),
        }
    }
}

impl Game {
    /// The id of the game.
    pub fn game_id(&self) -> (id: &String)
        ensures
            id@ == self@.game_id,
    {
        &self.game_id
    }

    /// The id of the player of the black disks.
    pub fn black_player_id(&self) -> (id: &String)
        ensures
            id@ == self@.black_player_id,
    {
        &self.black_player_id
    }

    /// The display name of the player of the black disks.
    pub fn black_player_name(&self) -> (name: &String)
        ensures
            name@ == self@.black_player_name,
    {
        &self.black_player_name
    }

    /// The id of the player of the white disks.
    pub fn white_player_id(&self) -> (id: &String)
        ensures
            id@ == self@.white_player_id,
    {
        &self.white_player_id
    }

    /// The display name of the player of the white disks.
    pub fn white_player_name(&self) -> (name: &String)
        ensures
            name@ == self@.white_player_name,
    {
        &self.white_player_name
    }

    /// A game is well formed when its board has eight rows of eight cells.
    pub open spec fn wf(&self) -> bool {
        well_formed(self@.board)
    }

    /// A new game in the starting position, black to move.
    pub fn new(
        game_id: String,
        black_player_id: String,
        black_player_name: String,
        white_player_id: String,
        white_player_name: String,
    ) -> (game: Self)
        ensures
            game.wf(),
            game@ == GameView::fresh(
                game_id@,
                black_player_id@,
                black_player_name@,
                white_player_id@,
                white_player_name@,
            ),
    {
        let mut board: Vec<Vec<Option<DiskColor>>> = Vec::new();
        let mut y: usize = 0;
        while y < 8
            invariant
                y <= 8,
                board@.len() == y,
                forall|r: int| 0 <= r < y ==> (#[trigger] board@[r])@ == initial_grid()[r],
            decreases 8 - y,
        {
            let mut row: Vec<Option<DiskColor>> = Vec::new();
            let mut x: usize = 0;
            while x < 8
                invariant
                    x <= 8,
                    y < 8,
                    row@.len() == x,
                    forall|c: int| 0 <= c < x ==> #[trigger] row@[c] == initial_grid()[y as int][c],
                decreases 8 - x,
            {
                let cell = if (x == 3 && y == 3) || (x == 4 && y == 4) {
                    Some(DiskColor::White)
                } else if (x == 4 && y == 3) || (x == 3 && y == 4) {
                    Some(DiskColor::Black)
                } else {
                    None
                };
                row.push(cell);
                x += 1;
            }
            assert(row@ =~= initial_grid()[y as int]);
            board.push(row);
            y += 1;
        }
        assert(grid_of(&board) =~~= initial_grid());
        let game = Game {
            game_id,
            black_player_id,
            black_player_name,
            white_player_id,
            white_player_name,
            board,
            current_color: DiskColor::Black,
            is_game_over: false,
            winner: None,
            move_history: Vec::new(),
        };
        assert(game@.move_history =~= Seq::empty());
        game
    }

    /// The snapshot of the game that the players are shown.
    pub fn get_state(&self) -> (state: GameState)
        requires
            self.wf(),
        ensures
            state@ == self@.state(),
            state.black_count + state.white_count <= 64,
    {
        let ghost g = self@.board;
        let mut board_strings: Vec<Vec<Option<String>>> = Vec::new();
        let mut y: usize = 0;
        while y < 8
            invariant
                y <= 8,
                g == grid_of(&self.board),
                well_formed(g),
                board_strings@.len() == y,
                forall|r: int|
                    0 <= r < y ==> (#[trigger] board_strings@[r]@).len() == 8 && forall|c: int|
                        0 <= c < 8 ==> opt_text(#[trigger] board_strings@[r]@[c]) == wire_board(
                            g,
                        )[r][c],
            decreases 8 - y,
        {
            let mut row: Vec<Option<String>> = Vec::new();
            let mut x: usize = 0;
            assert(g[y as int] == self.board@[y as int]@);
            while x < 8
                invariant
                    x <= 8,
                    y < 8,
                    g == grid_of(&self.board),
                    well_formed(g),
                    g[y as int] == self.board@[y as int]@,
                    row@.len() == x,
                    forall|c: int|
                        0 <= c < x ==> opt_text(#[trigger] row@[c]) == wire_board(g)[y as int][c],
                decreases 8 - x,
            {
                let cell = match self.board[y][x] {
                    Some(color) => Some(color.to_string()),
                    None => None,
                };
                row.push(cell);
                x += 1;
            }
            board_strings.push(row);
            y += 1;
        }
        assert(wire_view(&board_strings) =~~= wire_board(g));
        let (black_count, white_count) = count_disks(&self.board);
        let black_can_move = self.can_player_move(&DiskColor::Black);
        let white_can_move = self.can_player_move(&DiskColor::White);
        let current_player = self.current_color.to_string();
        let winner = match &self.winner {
            Some(id) => Some(id.clone()),
            None => None,
        };
        GameState {
            board: board_strings,
            current_player,
            is_game_over: self.is_game_over,
            winner,
            black_count,
            white_count,
            black_can_move,
            white_can_move,
        }
    }

    /// Whether the player of `color` has a legal move.
    fn can_player_move(&self, color: &DiskColor) -> (any: bool)
        requires
            self.wf(),
        ensures
            any == can_move(self@.board, *color),
    {
        has_valid_move(&self.board, color)
    }

    /// Whether a disk of `color` may be placed at `(x, y)`.
    fn is_valid_move(&self, x: usize, y: usize, color: &DiskColor) -> (legal: bool)
        requires
            self.wf(),
            x < 8,
            y < 8,
        ensures
            legal == valid_move(self@.board, x as int, y as int, *color),
    {
        is_valid_move(&self.board, x, y, color)
    }

    /// Turns over the disks that the disk of `color` just placed at
    /// `(x, y)` captures.
    fn flip_disks(&mut self, x: usize, y: usize, color: &DiskColor)
        requires
            old(self).wf(),
            x < 8,
            y < 8,
        ensures
            final(self).wf(),
            final(self)@ == (GameView {
                board: crate::board::flips_applied(old(self)@.board, x as int, y as int, *color),
                ..old(self)@
            }),
    {
        flip_disks(&mut self.board, x, y, color);
    }

    /// Hands the turn on after a move: to the opponent, or back to the
    /// mover when the opponent has to pass; ends the game when neither
    /// side can move.
    fn next_player(&mut self)
        requires
            old(self).wf(),
        ensures
            final(self).wf(),
            final(self)@ == old(self)@.turn_passed(),
    {
        self.current_color = self.current_color.opposite();
        if !self.can_player_move(&self.current_color) {
            self.current_color = self.current_color.opposite();
            if !self.can_player_move(&self.current_color) {
                self.end_game();
            }
        }
    }

    /// Ends the game on the board as it stands: the player with strictly
    /// more disks wins, equal counts are a draw.
    fn end_game(&mut self)
        requires
            old(self).wf(),
        ensures
            final(self).wf(),
            final(self)@ == old(self)@.ended(),
            final(self)@.is_game_over,
            disk_count(final(self)@.board, DiskColor::Black) + disk_count(
                final(self)@.board,
                DiskColor::White,
            ) <= 64,
            final(self)@.winner is None <==> disk_count(final(self)@.board, DiskColor::Black)
                == disk_count(final(self)@.board, DiskColor::White),
    {
        let (black_count, white_count) = count_disks(&self.board);
        self.is_game_over = true;
        if black_count > white_count {
            self.winner = Some(self.black_player_id.clone());
        } else if white_count > black_count {
            self.winner = Some(self.white_player_id.clone());
        } else {
            self.winner = None;
        }
    }

    /// The colour that `player_id` plays, if they take part in the game.
    fn get_player_color(&self, player_id: &str) -> (color: Option<DiskColor>)
        ensures
            color == self@.color_of(player_id@),
    {
        if str_eq(player_id, self.black_player_id.as_str()) {
            Some(DiskColor::Black)
        } else if str_eq(player_id, self.white_player_id.as_str()) {
            Some(DiskColor::White)
        } else {
            None
        }
    }

    /// Plays a disk of `player_id` at column `x`, row `y`.
    ///
    /// The move is refused, and the game left as it is, for the first of
    /// these that holds: the game is over; the player takes no part in it;
    /// it is not their turn; the cell is off the board; the placement
    /// captures nothing or the cell is taken. Otherwise the disk is placed,
    /// the captured disks are turned, the move is recorded and the turn
    /// goes on.
    pub fn make_move(&mut self, player_id: &str, x: usize, y: usize) -> (result: Result<
        GameState,
        String,
    >)
        requires
            old(self).wf(),
        ensures
            final(self).wf(),
            match old(self)@.move_error(player_id@, x as int, y as int) {
                Some(e) => result is Err && result->Err_0@ == e.text() && final(self)@ == old(self)@,
                None => result is Ok && final(self)@ == old(self)@.moved(
                    player_id@,
                    x as int,
                    y as int,
                ) && result->Ok_0@ == final(self)@.state(),
            },
    {
        if self.is_game_over {
            return Err(MoveError::GameAlreadyOver.message());
        }
        let player_color = match self.get_player_color(player_id) {
            Some(color) => color,
            None => {
                return Err(MoveError::NotAParticipant.message());
            },
        };
        if player_color != self.current_color {
            return Err(MoveError::NotYourTurn.message());
        }
        if x >= BOARD_SIZE || y >= BOARD_SIZE {
            return Err(MoveError::OutOfBounds.message());
        }
        if !self.is_valid_move(x, y, &player_color) {
            return Err(MoveError::InvalidMove.message());
        }
        proof {
            lemma_place_then_flip(self@.board, x as int, y as int, player_color);
        }
        set_disk(&mut self.board, x, y, player_color);
        self.flip_disks(x, y, &player_color);
        let ghost history = self@.move_history;
        self.move_history.push(
            GameMove { player_id: player_id.to_string(), x, y, color: player_color },
        );
        assert(self@.move_history =~= history.push(
            GameMoveView { player_id: player_id@, x: x as int, y: y as int, color: player_color },
        ));
        self.next_player();
        Ok(self.get_state())
    }

    /// Gives the game up for `player_id`: the opponent wins and the board
    /// stays as it is. Refused when the game is over or the player takes no
    /// part in it.
    pub fn resign(&mut self, player_id: &str) -> (result: Result<GameState, String>)
        requires
            old(self).wf(),
        ensures
            final(self).wf(),
            match old(self)@.resign_error(player_id@) {
                Some(e) => result is Err && result->Err_0@ == e.text() && final(self)@ == old(self)@,
                None => result is Ok && final(self)@ == old(self)@.resigned(player_id@)
                    && result->Ok_0@ == final(self)@.state(),
            },
    {
        if self.is_game_over {
            return Err(MoveError::GameAlreadyOver.message());
        }
        let is_black = str_eq(player_id, self.black_player_id.as_str());
        let is_white = str_eq(player_id, self.white_player_id.as_str());
        if !is_black && !is_white {
            return Err(MoveError::NotAParticipant.message());
        }
        self.is_game_over = true;
        if is_black {
            self.winner = Some(self.white_player_id.clone());
        } else {
            self.winner = Some(self.black_player_id.clone());
        }
        Ok(self.get_state())
    }
}

/// A game that has ended by the count of disks is over, holds at most 64
/// disks, and has no winner exactly when both sides hold equally many.
pub proof fn lemma_ended_game(game: GameView)
    requires
        well_formed(game.board),
    ensures
        game.ended().is_game_over,
        game.ended().state().black_count + game.ended().state().white_count <= 64,
        game.ended().winner is None <==> game.ended().state().black_count
            == game.ended().state().white_count,
{
    lemma_at_most_64_disks(game.board);
}

/// A move that is accepted keeps every disk of the mover, puts the mover's
/// colour on the played cell, and changes any other cell only from the
/// opponent's colour to the mover's.
pub proof fn lemma_accepted_move_board(game: GameView, player: Seq<char>, x: int, y: int)
    requires
        well_formed(game.board),
        game.move_error(player, x, y) is None,
    ensures
        well_formed(game.moved(player, x, y).board),
        game.moved(player, x, y).board == after_move(game.board, x, y, game.current_color),
        game.moved(player, x, y).board[y][x] == Some(game.current_color),
        forall|cx: int, cy: int|
            on_board(cx, cy) && game.board[cy][cx] == Some(game.current_color)
                ==> #[trigger] game.moved(player, x, y).board[cy][cx] == Some(game.current_color),
        forall|cx: int, cy: int|
            on_board(cx, cy) && !(cx == x && cy == y) && #[trigger] game.moved(
                player,
                x,
                y,
            ).board[cy][cx] != game.board[cy][cx] ==> game.board[cy][cx] == Some(
                game.current_color.flipped(),
            ) && game.moved(player, x, y).board[cy][cx] == Some(game.current_color),
{
    lemma_move_only_turns_opponents(game.board, x, y, game.current_color);
}

} // verus!
