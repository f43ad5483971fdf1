//! The board: where everything stands, whose turn it is, and the keys that
//! identify the position.

pub mod attacks;
pub mod board;
pub mod keys;
pub mod placement;
pub mod safety;
pub mod state;
pub mod tables;
pub mod zobrist;
