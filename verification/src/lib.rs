//! Duck chess search core: the board with its incremental keys, the staged
//! move picker, and the alpha-beta search with its quiescence search.

pub mod board;
pub mod common;
pub mod position;
pub mod rules;
pub mod score;
pub mod search;
pub mod tree;
