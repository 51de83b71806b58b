use reversi::game::{Game, GameState, MoveError};

fn new_game() -> Game {
    Game::new(
        "g1".to_string(),
        "s1".to_string(),
        "alice".to_string(),
        "s2".to_string(),
        "bob".to_string(),
    )
}

fn wire(rows: [&str; 8]) -> Vec<Vec<Option<String>>> {
    let mut board = Vec::new();
    for row in rows.iter() {
        let mut cells = Vec::new();
        for c in row.chars() {
            cells.push(match c {
                'B' => Some("black".to_string()),
                'W' => Some("white".to_string()),
                _ => None,
            });
        }
        board.push(cells);
    }
    board
}

fn play(game: &mut Game, moves: &[(usize, usize, &str)]) -> GameState {
    let mut last = game.get_state();
    for (x, y, player) in moves.iter() {
        last = game.make_move(player, *x, *y).unwrap();
    }
    last
}

#[test]
fn a_new_game_starts_from_the_opening_with_black_to_move() {
    let game = new_game();
    assert_eq!(game.game_id(), "g1");
    assert_eq!(game.black_player_id(), "s1");
    assert_eq!(game.black_player_name(), "alice");
    assert_eq!(game.white_player_id(), "s2");
    assert_eq!(game.white_player_name(), "bob");
    let state = game.get_state();
    assert_eq!(
        state,
        GameState {
            board: wire([
                "........",
                "........",
                "........",
                "...WB...",
                "...BW...",
                "........",
                "........",
                "........",
            ]),
            current_player: "black".to_string(),
            is_game_over: false,
            winner: None,
            black_count: 2,
            white_count: 2,
            black_can_move: true,
            white_can_move: true,
        }
    );
}

#[test]
fn the_opening_move_flips_one_disk_and_hands_the_turn_on() {
    let mut game = new_game();
    let state = game.make_move("s1", 2, 3).unwrap();
    assert_eq!(state.board[3][2], Some("black".to_string()));
    assert_eq!(state.board[3][3], Some("black".to_string()));
    assert_eq!(state.current_player, "white");
    assert_eq!(state.black_count, 4);
    assert_eq!(state.white_count, 1);
    assert!(!state.is_game_over);
    assert_eq!(state.winner, None);
    assert_eq!(
        state.board,
        wire([
            "........",
            "........",
            "........",
            "..BBB...",
            "...BW...",
            "........",
            "........",
            "........",
        ])
    );
    assert_eq!(state, game.get_state());
}

#[test]
fn a_move_that_captures_nothing_is_refused() {
    let mut game = new_game();
    let before = game.get_state();
    assert_eq!(game.make_move("s1", 0, 0), Err("Invalid move".to_string()));
    assert_eq!(game.get_state(), before);
}

#[test]
fn a_move_on_an_occupied_cell_is_refused() {
    let mut game = new_game();
    assert_eq!(game.make_move("s1", 3, 3), Err("Invalid move".to_string()));
}

#[test]
fn a_move_out_of_turn_is_refused() {
    let mut game = new_game();
    let before = game.get_state();
    assert_eq!(game.make_move("s2", 2, 4), Err("It's not your turn".to_string()));
    assert_eq!(game.get_state(), before);
}

#[test]
fn a_move_of_a_stranger_is_refused() {
    let mut game = new_game();
    assert_eq!(
        game.make_move("s3", 2, 3),
        Err("You are not a player in this game".to_string())
    );
}

#[test]
fn a_move_off_the_board_is_refused() {
    let mut game = new_game();
    assert_eq!(game.make_move("s1", 8, 3), Err("Invalid coordinates".to_string()));
    assert_eq!(game.make_move("s1", 3, 8), Err("Invalid coordinates".to_string()));
    assert_eq!(
        game.make_move("s1", usize::MAX, usize::MAX),
        Err("Invalid coordinates".to_string())
    );
}

#[test]
fn a_move_after_the_end_is_refused() {
    let mut game = new_game();
    game.resign("s1").unwrap();
    assert_eq!(game.make_move("s2", 2, 4), Err("Game is already over".to_string()));
}

#[test]
fn the_refusals_come_in_a_fixed_order() {
    let mut game = new_game();
    assert_eq!(
        game.make_move("s3", 8, 8),
        Err("You are not a player in this game".to_string())
    );
    assert_eq!(game.make_move("s2", 8, 8), Err("It's not your turn".to_string()));
    assert_eq!(game.make_move("s1", 8, 0), Err("Invalid coordinates".to_string()));
    game.resign("s2").unwrap();
    assert_eq!(game.make_move("s3", 8, 8), Err("Game is already over".to_string()));
    assert_eq!(game.resign("s3"), Err("Game is already over".to_string()));
}

#[test]
fn the_texts_of_the_refusals() {
    assert_eq!(MoveError::GameAlreadyOver.message(), "Game is already over");
    assert_eq!(MoveError::NotAParticipant.message(), "You are not a player in this game");
    assert_eq!(MoveError::NotYourTurn.message(), "It's not your turn");
    assert_eq!(MoveError::OutOfBounds.message(), "Invalid coordinates");
    assert_eq!(MoveError::InvalidMove.message(), "Invalid move");
}

#[test]
fn resigning_makes_the_opponent_win_and_leaves_the_board() {
    let mut game = new_game();
    game.make_move("s1", 2, 3).unwrap();
    let before = game.get_state();
    let state = game.resign("s2").unwrap();
    assert!(state.is_game_over);
    assert_eq!(state.winner, Some("s1".to_string()));
    assert_eq!(state.board, before.board);
    assert_eq!(state.current_player, before.current_player);
    assert_eq!(state.black_count, 4);
    assert_eq!(state.white_count, 1);
}

#[test]
fn black_resigning_makes_white_win() {
    let mut game = new_game();
    let state = game.resign("s1").unwrap();
    assert!(state.is_game_over);
    assert_eq!(state.winner, Some("s2".to_string()));
}

#[test]
fn a_player_may_resign_out_of_turn() {
    let mut game = new_game();
    let state = game.resign("s2").unwrap();
    assert_eq!(state.winner, Some("s1".to_string()));
}

#[test]
fn a_stranger_cannot_resign() {
    let mut game = new_game();
    assert_eq!(game.resign("s3"), Err("You are not a player in this game".to_string()));
    assert!(!game.get_state().is_game_over);
}

#[test]
fn nobody_resigns_twice() {
    let mut game = new_game();
    game.resign("s1").unwrap();
    assert_eq!(game.resign("s1"), Err("Game is already over".to_string()));
    assert_eq!(game.resign("s2"), Err("Game is already over".to_string()));
}

#[test]
fn a_player_who_cannot_move_is_skipped() {
    let mut game = new_game();
    let state = play(
        &mut game,
        &[
            (3, 2, "s1"),
            (2, 2, "s2"),
            (1, 2, "s1"),
            (1, 1, "s2"),
            (5, 4, "s1"),
            (0, 2, "s2"),
            (0, 0, "s1"),
            (2, 0, "s2"),
        ],
    );
    assert_eq!(
        state.board,
        wire([
            "B.W.....",
            ".W......",
            "WWBB....",
            "...BB...",
            "...BBB..",
            "........",
            "........",
            "........",
        ])
    );
    assert_eq!(state.current_player, "white");
    assert!(!state.black_can_move);
    assert!(state.white_can_move);
    assert!(!state.is_game_over);
    assert_eq!(game.make_move("s1", 4, 2), Err("It's not your turn".to_string()));
    assert!(game.make_move("s2", 4, 2).is_ok());
}

#[test]
fn the_game_ends_when_neither_side_can_move() {
    let mut game = new_game();
    let state = play(
        &mut game,
        &[
            (3, 2, "s1"),
            (2, 2, "s2"),
            (1, 2, "s1"),
            (3, 1, "s2"),
            (4, 0, "s1"),
            (3, 5, "s2"),
            (3, 6, "s1"),
            (4, 2, "s2"),
            (5, 3, "s1"),
        ],
    );
    assert_eq!(
        state.board,
        wire([
            "....B...",
            "...B....",
            ".BBBB...",
            "...BBB..",
            "...BB...",
            "...B....",
            "...B....",
            "........",
        ])
    );
    assert!(state.is_game_over);
    assert_eq!(state.winner, Some("s1".to_string()));
    assert_eq!(state.black_count, 13);
    assert_eq!(state.white_count, 0);
    assert!(state.black_count + state.white_count <= 64);
    assert!(!state.black_can_move);
    assert!(!state.white_can_move);
    assert_eq!(state.current_player, "black");
    assert_eq!(game.make_move("s2", 0, 0), Err("Game is already over".to_string()));
}

#[test]
fn the_counts_follow_every_move() {
    let mut game = new_game();
    let moves = [(3usize, 2usize, "s1"), (2, 2, "s2"), (1, 2, "s1"), (3, 1, "s2")];
    let expected = [(4usize, 1usize), (3, 3), (5, 2), (4, 4)];
    for i in 0..4 {
        let (x, y, player) = moves[i];
        let state = game.make_move(player, x, y).unwrap();
        assert_eq!((state.black_count, state.white_count), expected[i]);
        assert_eq!(state.winner, None);
    }
}

#[test]
fn a_full_board_with_equal_counts_is_a_draw() {
    let mut game = new_game();
    let moves = [
        (2, 3, "s1"), (4, 2, "s2"), (5, 1, "s1"), (2, 2, "s2"), (2, 4, "s1"), (1, 4, "s2"),
        (4, 5, "s1"), (3, 2, "s2"), (1, 3, "s1"), (5, 5, "s2"), (1, 2, "s1"), (3, 5, "s2"),
        (4, 6, "s1"), (3, 6, "s2"), (6, 4, "s1"), (6, 5, "s2"), (0, 5, "s1"), (1, 5, "s2"),
        (6, 6, "s1"), (1, 1, "s2"), (0, 6, "s1"), (5, 2, "s2"), (3, 7, "s1"), (5, 7, "s2"),
        (5, 3, "s1"), (2, 7, "s2"), (5, 6, "s1"), (6, 2, "s2"), (2, 1, "s1"), (6, 7, "s2"),
        (5, 4, "s1"), (3, 1, "s2"), (3, 0, "s1"), (7, 5, "s2"), (7, 7, "s1"), (4, 0, "s2"),
        (0, 1, "s1"), (2, 5, "s2"), (1, 0, "s1"), (1, 6, "s2"), (7, 1, "s1"), (0, 0, "s2"),
        (6, 3, "s1"), (2, 0, "s2"), (5, 0, "s1"), (7, 6, "s2"), (7, 4, "s1"), (4, 7, "s2"),
        (0, 4, "s1"), (6, 0, "s2"), (1, 7, "s1"), (0, 2, "s2"), (0, 3, "s1"), (6, 1, "s2"),
        (2, 6, "s1"), (0, 7, "s2"), (7, 3, "s1"), (7, 2, "s2"), (4, 1, "s1"), (7, 0, "s2"),
    ];
    assert_eq!(moves.len(), 60);
    let state = play(&mut game, &moves);
    assert_eq!(
        state.board,
        wire([
            "WWWWWWWW",
            "WWWWBBWW",
            "WWWBBWWW",
            "WBBBWBBB",
            "WBBWBWBB",
            "WBWBWBWB",
            "WWBBBBBB",
            "WBBBBBBB",
        ])
    );
    assert!(state.is_game_over);
    assert_eq!(state.winner, None);
    assert_eq!(state.black_count, 32);
    assert_eq!(state.white_count, 32);
    assert_eq!(state.black_count + state.white_count, 64);
    assert!(!state.black_can_move);
    assert!(!state.white_can_move);
}
