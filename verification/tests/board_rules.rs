use reversi::board::{
    calculate_valid_moves, count_disks, flip_disks, has_valid_move, is_valid_move, set_disk,
    DiskColor, BOARD_SIZE,
};

fn board_from(rows: [&str; 8]) -> Vec<Vec<Option<DiskColor>>> {
    let mut board = Vec::new();
    for row in rows.iter() {
        let mut cells = Vec::new();
        for c in row.chars() {
            cells.push(match c {
                'B' => Some(DiskColor::Black),
                'W' => Some(DiskColor::White),
                _ => None,
            });
        }
        assert_eq!(cells.len(), 8);
        board.push(cells);
    }
    board
}

fn opening() -> Vec<Vec<Option<DiskColor>>> {
    board_from([
        "........",
        "........",
        "........",
        "...WB...",
        "...BW...",
        "........",
        "........",
        "........",
    ])
}

#[test]
fn board_size_is_eight() {
    assert_eq!(BOARD_SIZE, 8);
}

#[test]
fn opposite_is_an_involution() {
    assert_eq!(DiskColor::Black.opposite(), DiskColor::White);
    assert_eq!(DiskColor::White.opposite(), DiskColor::Black);
    assert_eq!(DiskColor::Black.opposite().opposite(), DiskColor::Black);
    assert_eq!(DiskColor::White.opposite().opposite(), DiskColor::White);
}

#[test]
fn colors_have_lower_case_wire_names() {
    assert_eq!(DiskColor::Black.to_string(), "black");
    assert_eq!(DiskColor::White.to_string(), "white");
}

#[test]
fn opening_moves_of_black_in_row_major_order() {
    let board = opening();
    assert_eq!(
        calculate_valid_moves(&board, &DiskColor::Black),
        vec![(3, 2), (2, 3), (5, 4), (4, 5)]
    );
}

#[test]
fn opening_moves_of_white_in_row_major_order() {
    let board = opening();
    assert_eq!(
        calculate_valid_moves(&board, &DiskColor::White),
        vec![(4, 2), (5, 3), (2, 4), (3, 5)]
    );
}

#[test]
fn a_move_must_capture() {
    let board = opening();
    assert!(is_valid_move(&board, 2, 3, &DiskColor::Black));
    assert!(!is_valid_move(&board, 0, 0, &DiskColor::Black));
    assert!(!is_valid_move(&board, 2, 2, &DiskColor::Black));
    assert!(!is_valid_move(&board, 2, 3, &DiskColor::White));
}

#[test]
fn an_occupied_cell_is_no_move() {
    let board = opening();
    assert!(!is_valid_move(&board, 3, 3, &DiskColor::Black));
    assert!(!is_valid_move(&board, 4, 3, &DiskColor::White));
}

#[test]
fn a_run_must_be_closed_by_an_own_disk() {
    let board = board_from([
        "........",
        "........",
        "........",
        ".WWW....",
        "........",
        "........",
        "........",
        "........",
    ]);
    assert!(!is_valid_move(&board, 0, 3, &DiskColor::Black));
    assert!(!is_valid_move(&board, 4, 3, &DiskColor::Black));
    assert!(!has_valid_move(&board, &DiskColor::Black));
}

#[test]
fn a_run_that_reaches_the_edge_is_not_captured() {
    let board = board_from([
        "........",
        "........",
        "........",
        "B.....WW",
        "........",
        "........",
        "........",
        "........",
    ]);
    assert!(!is_valid_move(&board, 5, 3, &DiskColor::Black));
    assert!(!has_valid_move(&board, &DiskColor::Black));
}

#[test]
fn both_sides_can_move_at_the_opening() {
    let board = opening();
    assert!(has_valid_move(&board, &DiskColor::Black));
    assert!(has_valid_move(&board, &DiskColor::White));
}

#[test]
fn nobody_can_move_on_an_empty_board() {
    let board = board_from(["........"; 8]);
    assert!(!has_valid_move(&board, &DiskColor::Black));
    assert!(!has_valid_move(&board, &DiskColor::White));
    assert_eq!(calculate_valid_moves(&board, &DiskColor::Black), vec![]);
}

#[test]
fn placing_and_flipping_the_opening_move() {
    let mut board = opening();
    set_disk(&mut board, 2, 3, DiskColor::Black);
    flip_disks(&mut board, 2, 3, &DiskColor::Black);
    assert_eq!(
        board,
        board_from([
            "........",
            "........",
            "........",
            "..BBB...",
            "...BW...",
            "........",
            "........",
            "........",
        ])
    );
}

#[test]
fn flipping_in_several_directions_at_once() {
    let mut board = board_from([
        "........",
        "...B....",
        "..WBW...",
        "..BBW...",
        "...BW...",
        "........",
        "........",
        "........",
    ]);
    assert!(is_valid_move(&board, 2, 4, &DiskColor::White));
    set_disk(&mut board, 2, 4, DiskColor::White);
    flip_disks(&mut board, 2, 4, &DiskColor::White);
    assert_eq!(
        board,
        board_from([
            "........",
            "...B....",
            "..WBW...",
            "..WWW...",
            "..WWW...",
            "........",
            "........",
            "........",
        ])
    );
}

#[test]
fn flipping_a_long_run() {
    let mut board = board_from([
        "........",
        "........",
        "........",
        ".WWWWWWB",
        "........",
        "........",
        "........",
        "........",
    ]);
    assert!(is_valid_move(&board, 0, 3, &DiskColor::Black));
    set_disk(&mut board, 0, 3, DiskColor::Black);
    flip_disks(&mut board, 0, 3, &DiskColor::Black);
    assert_eq!(
        board,
        board_from([
            "........",
            "........",
            "........",
            "BBBBBBBB",
            "........",
            "........",
            "........",
            "........",
        ])
    );
}

#[test]
fn flipping_without_a_capture_changes_nothing() {
    let mut board = opening();
    set_disk(&mut board, 0, 0, DiskColor::Black);
    let placed = board.clone();
    flip_disks(&mut board, 0, 0, &DiskColor::Black);
    assert_eq!(board, placed);
}

#[test]
fn a_move_keeps_the_movers_disks_and_turns_only_opponents() {
    let before = board_from([
        "........",
        "...B....",
        "..WBW...",
        "..BBW...",
        "...BW...",
        "........",
        "........",
        "........",
    ]);
    let mut after = before.clone();
    set_disk(&mut after, 2, 4, DiskColor::White);
    flip_disks(&mut after, 2, 4, &DiskColor::White);
    assert_eq!(after[4][2], Some(DiskColor::White));
    for y in 0..8 {
        for x in 0..8 {
            if before[y][x] == Some(DiskColor::White) {
                assert_eq!(after[y][x], Some(DiskColor::White));
            }
            if (x, y) != (2, 4) && after[y][x] != before[y][x] {
                assert_eq!(before[y][x], Some(DiskColor::Black));
                assert_eq!(after[y][x], Some(DiskColor::White));
            }
        }
    }
}

#[test]
fn counting_the_disks_of_the_opening() {
    assert_eq!(count_disks(&opening()), (2, 2));
}

#[test]
fn counting_the_disks_of_a_full_board() {
    let board = board_from([
        "BBBBBBBB",
        "BBBBBBBB",
        "BBBBBBBB",
        "BBBBBBBB",
        "WWWWWWWW",
        "WWWWWWWW",
        "WWWWWWWW",
        "WWWWWWWB",
    ]);
    assert_eq!(count_disks(&board), (33, 31));
}

#[test]
fn counting_the_disks_of_an_empty_board() {
    assert_eq!(count_disks(&board_from(["........"; 8])), (0, 0));
}
