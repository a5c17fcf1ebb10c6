//! A minimal chess-position engine: board state, per-piece movement rays,
//! move validation and the text encodings a small server speaks.
mod board;
mod laws;
mod location;
mod piece;
mod render;
mod request;
mod text;
mod walk;

pub use board::{Board, MoveError};
pub use laws::{
    lemma_king_interior, lemma_knight_corner, lemma_knight_interior, lemma_move_round_trip,
    lemma_origin_not_destination, lemma_pawn_blocked, lemma_pawn_double_step,
    lemma_slider_stops_at_first_piece,
};
pub use render::lemma_board_text_plain;
pub use location::Location;
pub use piece::{Color, Piece, Type};
pub use render::{
    bad_request_res, board_as_str, board_response, cell_as_str, push_decimal, response_body, squares_json,
    success_res,
};
pub use request::{find_arg, get_from_to, location_from_string, parse_request};
pub use text::{join_from, split_on};
pub use walk::{Walk, WalkStrategy};
