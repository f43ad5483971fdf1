//! The search.

use vstd::prelude::*;

pub mod backend;
pub mod decisions;
pub mod deepening;
pub mod ducks;
pub mod exposure;
pub mod frames;
pub mod leaving;
pub mod minimax;
pub mod model;
pub mod move_picker;
pub mod move_stack;
pub mod negamax;
pub mod ordering;
pub mod outcomes;
pub mod passing;
pub mod picking;
pub mod priority;
pub mod quiescence;
pub mod records;
pub mod search;
pub mod thread;

verus! {

/// The number of plies the search can look ahead.
pub const MAX_PLY: usize = 256;

} // verus!
