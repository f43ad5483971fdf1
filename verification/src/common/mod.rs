//! Squares, pieces, moves and sets of squares.

pub mod types;
pub mod bitboard;
pub mod geometry;
pub mod moves;
