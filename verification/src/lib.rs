//! Chess and chess variant rules: positions, legal move generation, move
//! execution, setup validation and Standard Algebraic Notation.
//!
//! The first modules hold the library: squares and sets of squares, the
//! attacks of the pieces, the board, the moves and the positions of
//! standard chess and of seven variants, and the notation of moves. The
//! modules after `san` hold what is proved of the library beyond the
//! contracts of its functions: that the legal moves are exactly the moves
//! of the pieces that leave the king out of check, that a game keeps the
//! board and the castling rights in order, and that a move is read back
//! from its notation.

pub mod square;
pub mod color;
pub mod types;
pub mod bitboard;
pub mod attacks;
pub mod magic;
pub mod precomp;
pub mod board;
pub mod material;
pub mod movelist;
pub mod setup;
pub mod movegen;
pub mod position;
pub mod rules;
pub mod atomic;
pub mod antichess;
pub mod king_of_the_hill;
pub mod three_check;
pub mod crazyhouse;
pub mod racing_kings;
pub mod horde;
pub mod san;
pub mod laws;
pub mod attack_laws;
pub mod candidate_laws;
pub mod san_laws;
pub mod reachable;
pub mod ray_laws;
pub mod line_laws;
pub mod threats;
pub mod pin_laws;
pub mod safety;
pub mod legality;
pub mod secure;
pub mod exact_laws;
pub mod exact_moves;
pub mod subset_laws;
pub mod san_text_laws;
pub mod games;
pub mod count_laws;
pub mod start_laws;
