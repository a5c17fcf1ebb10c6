use chess_server::{board_as_str, Board, Color, Location, MoveError, Piece, Type};

fn at(i: u8) -> Location {
    Location::from_index(i).unwrap()
}

fn cells(board: &Board) -> Vec<String> {
    board_as_str(board).split(',').map(|s| s.to_string()).collect()
}

#[test]
fn pawn_double_step_on_initial_board() {
    let mut board = Board::new();
    assert_eq!(board.step(at(8), at(24)), Ok(()));
    assert_eq!(board.get(at(8)), None);
    assert_eq!(board.get(at(24)), Piece::new_opt(Type::Pawn, Color::White));
    let c = cells(&board);
    assert_eq!(c[8], "");
    assert_eq!(c[24], "wP");
}

#[test]
fn rook_onto_own_pawn_is_refused() {
    let mut board = Board::new();
    let before = board_as_str(&board);
    assert_eq!(board.step(at(0), at(8)), Err(MoveError::IllegalDestination));
    assert_eq!(board_as_str(&board), before);
}

#[test]
fn empty_source_is_refused() {
    let mut board = Board::new();
    let before = board_as_str(&board);
    let err = board.step(at(27), at(35)).unwrap_err();
    assert_eq!(err, MoveError::EmptySource(at(27)));
    assert_eq!(err.message(), "No piece at d4");
    assert_eq!(MoveError::IllegalDestination.message(), "Invalid move");
    assert_eq!(board_as_str(&board), before);
}

#[test]
fn refused_moves_leave_board_unchanged() {
    let mut board = Board::new();
    let before = board_as_str(&board);
    for (from, to) in [(8u8, 32u8), (1, 11), (4, 12), (3, 3), (60, 52), (0, 63)] {
        assert!(board.step(at(from), at(to)).is_err());
        assert_eq!(board_as_str(&board), before);
    }
}

#[test]
fn capture_moves_exactly_two_entries() {
    let mut board = Board::empty();
    board.place(at(0), Piece::new_opt(Type::Rook, Color::White));
    board.place(at(40), Piece::new_opt(Type::Knight, Color::Black));
    board.place(at(5), Piece::new_opt(Type::King, Color::Black));
    let before = cells(&board);
    assert_eq!(board.step(at(0), at(40)), Ok(()));
    let after = cells(&board);
    assert_eq!(after.len(), 64);
    assert_eq!(after[40], "wR");
    assert_eq!(after[0], "");
    for i in 0..64 {
        if i != 0 && i != 40 {
            assert_eq!(after[i], before[i]);
        }
    }
}

#[test]
fn knight_jumps_over_pawns() {
    let mut board = Board::new();
    assert_eq!(board.step(at(1), at(18)), Ok(()));
    assert_eq!(cells(&board)[18], "wN");
    assert_eq!(board.step(at(62), at(45)), Ok(()));
    assert_eq!(cells(&board)[45], "bN");
}

#[test]
fn empty_board_has_no_pieces() {
    let board = Board::empty();
    assert!(cells(&board).iter().all(|c| c.is_empty()));
}
