use chess_server::{Board, Color, Location, Piece, Type, WalkStrategy};

fn sq(x: u8, y: u8) -> Location {
    Location::new(x, y).unwrap()
}

fn lone(tpe: Type, color: Color, at: Location) -> Board {
    let mut board = Board::empty();
    board.place(at, Piece::new_opt(tpe, color));
    board
}

fn sorted(mut v: Vec<Location>) -> Vec<Location> {
    v.sort();
    v
}

#[test]
fn knight_interior_has_eight_destinations() {
    for x in 2..6 {
        for y in 2..6 {
            let from = sq(x, y);
            let board = lone(Type::Knight, Color::White, from);
            let moves = Piece::new(Type::Knight, Color::White).valid_moves(&board, from);
            assert_eq!(moves.len(), 8);
            let mut dedup = sorted(moves.clone());
            dedup.dedup();
            assert_eq!(dedup.len(), 8);
        }
    }
}

#[test]
fn knight_corner_has_two_destinations() {
    let from = sq(0, 0);
    let board = lone(Type::Knight, Color::Black, from);
    let moves = Piece::new(Type::Knight, Color::Black).valid_moves(&board, from);
    assert_eq!(sorted(moves), vec![sq(1, 2), sq(2, 1)]);
    for (x, y) in [(0u8, 7u8), (7, 0), (7, 7)] {
        let from = sq(x, y);
        let board = lone(Type::Knight, Color::White, from);
        assert_eq!(Piece::new(Type::Knight, Color::White).valid_moves(&board, from).len(), 2);
    }
}

#[test]
fn king_interior_has_eight_neighbours() {
    let from = sq(3, 4);
    let board = lone(Type::King, Color::White, from);
    let moves = Piece::new(Type::King, Color::White).valid_moves(&board, from);
    assert_eq!(moves.len(), 8);
    for m in &moves {
        let dx = (m.x as i32 - 3).abs();
        let dy = (m.y as i32 - 4).abs();
        assert_eq!(dx.max(dy), 1);
    }
}

#[test]
fn white_pawn_double_step_from_start() {
    let from = sq(4, 1);
    let board = lone(Type::Pawn, Color::White, from);
    let moves = Piece::new(Type::Pawn, Color::White).valid_moves(&board, from);
    assert_eq!(moves, vec![sq(4, 2), sq(4, 3)]);
}

#[test]
fn white_pawn_blocked_by_own_piece() {
    let from = sq(4, 1);
    let mut board = lone(Type::Pawn, Color::White, from);
    board.place(sq(4, 2), Piece::new_opt(Type::Knight, Color::White));
    let moves = Piece::new(Type::Pawn, Color::White).valid_moves(&board, from);
    assert!(moves.is_empty());
}

#[test]
fn pawn_single_step_off_start_rank() {
    let from = sq(2, 3);
    let board = lone(Type::Pawn, Color::Black, from);
    let moves = Piece::new(Type::Pawn, Color::Black).valid_moves(&board, from);
    assert_eq!(moves, vec![sq(2, 2)]);
}

#[test]
fn black_pawn_double_step_from_start() {
    let from = sq(0, 6);
    let board = lone(Type::Pawn, Color::Black, from);
    let moves = Piece::new(Type::Pawn, Color::Black).valid_moves(&board, from);
    assert_eq!(moves, vec![sq(0, 5), sq(0, 4)]);
}

#[test]
fn bishop_captures_and_stops() {
    // Bishop on d4, enemy on g7.
    let from = sq(3, 3);
    let mut board = lone(Type::Bishop, Color::White, from);
    board.place(sq(6, 6), Piece::new_opt(Type::Pawn, Color::Black));
    let moves = Piece::new(Type::Bishop, Color::White).valid_moves(&board, from);
    assert!(moves.contains(&sq(6, 6)));
    assert!(moves.contains(&sq(5, 5)));
    assert!(!moves.contains(&sq(7, 7)));
    assert_eq!(moves.len(), 12);
}

#[test]
fn rook_stops_before_own_piece() {
    let from = sq(0, 0);
    let mut board = lone(Type::Rook, Color::White, from);
    board.place(sq(0, 3), Piece::new_opt(Type::Pawn, Color::White));
    let moves = Piece::new(Type::Rook, Color::White).valid_moves(&board, from);
    assert!(moves.contains(&sq(0, 2)));
    assert!(!moves.contains(&sq(0, 3)));
    assert!(!moves.contains(&sq(0, 4)));
    assert_eq!(moves.len(), 9);
}

#[test]
fn queen_on_empty_board() {
    let from = sq(3, 3);
    let board = lone(Type::Queen, Color::Black, from);
    let moves = Piece::new(Type::Queen, Color::Black).valid_moves(&board, from);
    assert_eq!(moves.len(), 27);
    assert!(!moves.contains(&from));
}

#[test]
fn walk_stops_at_edge_and_step_limit() {
    let mut walk = WalkStrategy::new(1, 1, 7).to_walk(sq(5, 5));
    assert_eq!(walk.next(), Some(sq(6, 6)));
    assert_eq!(walk.next(), Some(sq(7, 7)));
    assert_eq!(walk.next(), None);
    let mut walk = WalkStrategy::new(0, 1, 2).to_walk(sq(0, 0));
    assert_eq!(walk.next(), Some(sq(0, 1)));
    assert_eq!(walk.next(), Some(sq(0, 2)));
    assert_eq!(walk.next(), None);
}

#[test]
fn movement_table_sizes() {
    let from = sq(3, 3);
    assert_eq!(Piece::new(Type::Knight, Color::White).strategies(from).len(), 8);
    assert_eq!(Piece::new(Type::Bishop, Color::White).strategies(from).len(), 4);
    assert_eq!(Piece::new(Type::Queen, Color::White).strategies(from).len(), 8);
    assert_eq!(
        Piece::new(Type::Pawn, Color::White).strategies(sq(3, 1)),
        vec![WalkStrategy::new(0, 1, 2)]
    );
}

#[test]
fn location_bounds_and_names() {
    assert_eq!(Location::new(8, 0), None);
    assert_eq!(Location::new(0, 8), None);
    assert_eq!(Location::from_index(63), Some(sq(7, 7)));
    assert_eq!(Location::from_index(64), None);
    assert_eq!(sq(0, 0).to_string(), "a1");
    assert_eq!(sq(6, 6).to_string(), "g7");
    assert_eq!(sq(3, 3).to_index(), 27);
}
