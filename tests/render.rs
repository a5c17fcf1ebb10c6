use chess_server::{
    bad_request_res, board_as_str, board_response, cell_as_str, push_decimal, response_body, squares_json,
    success_res, Board, Color, Piece, Type,
};

#[test]
fn cell_codes() {
    assert_eq!(cell_as_str(&None), "");
    assert_eq!(cell_as_str(&Piece::new_opt(Type::Pawn, Color::White)), "wP");
    assert_eq!(cell_as_str(&Piece::new_opt(Type::Knight, Color::Black)), "bN");
    assert_eq!(cell_as_str(&Piece::new_opt(Type::King, Color::Black)), "bK");
    assert_eq!(cell_as_str(&Piece::new_opt(Type::Queen, Color::White)), "wQ");
    assert_eq!(cell_as_str(&Piece::new_opt(Type::Bishop, Color::White)), "wB");
    assert_eq!(cell_as_str(&Piece::new_opt(Type::Rook, Color::Black)), "bR");
}

#[test]
fn initial_board_text() {
    let expected = format!(
        "wR,wN,wB,wQ,wK,wB,wN,wR,{},{},{},bR,bN,bB,bQ,bK,bB,bN,bR",
        vec!["wP"; 8].join(","),
        vec![""; 32].join(","),
        vec!["bP"; 8].join(",")
    );
    assert_eq!(board_as_str(&Board::new()), expected);
}

#[test]
fn empty_board_text_has_63_commas() {
    assert_eq!(board_as_str(&Board::empty()), ",".repeat(63));
}

#[test]
fn json_body_wraps_quoted_squares() {
    assert_eq!(response_body("wR,,bP"), "{\"squares\":\"wR,,bP\"}");
    assert_eq!(response_body("a\"b"), "{\"squares\":\"a\\\"b\"}");
    assert_eq!(response_body("t\u{1}\\"), "{\"squares\":\"t\\u0001\\\\\"}");
    assert_eq!(squares_json("\"x\""), "{\"squares\":\"x\"}");
}

#[test]
fn success_response_text() {
    assert_eq!(
        success_res("{}".to_string()),
        "HTTP/1.1 200 OK\r\nAccess-Control-Allow-Origin: *\r\nContent-Type: application/json\r\nContent-Length: 2\r\n\r\n{}"
    );
}

#[test]
fn bad_request_response_text() {
    assert_eq!(
        bad_request_res("Invalid move".to_string()),
        "HTTP/1.1 400 Bad Request\r\nAccess-Control-Allow-Origin: *\r\nContent-Type: text/plain\r\nContent-Length: 12\r\n\r\nInvalid move"
    );
}

#[test]
fn content_length_counts_bytes() {
    let r = bad_request_res("é".to_string());
    assert!(r.contains("Content-Length: 2\r\n"));
}

#[test]
fn decimal_numerals() {
    let mut s = String::from("n=");
    push_decimal(&mut s, 0);
    assert_eq!(s, "n=0");
    let mut s = String::new();
    push_decimal(&mut s, 1024);
    assert_eq!(s, "1024");
    let mut s = String::new();
    push_decimal(&mut s, usize::MAX);
    assert_eq!(s, usize::MAX.to_string());
}

#[test]
fn board_response_carries_board_text() {
    let board = Board::new();
    let text = board_as_str(&board);
    let body = format!("{{\"squares\":\"{}\"}}", text);
    let expected = format!(
        "HTTP/1.1 200 OK\r\nAccess-Control-Allow-Origin: *\r\nContent-Type: application/json\r\nContent-Length: {}\r\n\r\n{}",
        body.len(),
        body
    );
    assert_eq!(board_response(&board), expected);
}
