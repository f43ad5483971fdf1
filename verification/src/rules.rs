//! What the rules of the game say of a position.

use crate::board::board::{Board, BoardModel};
use crate::common::moves::Move;
use crate::position::{Position, PositionModel};
use vstd::prelude::*;

verus! {

/// Which of the legal moves to list.
#[derive(Debug, Clone, Copy, PartialEq, Eq, Structural)]
pub enum MoveFilter {
    Noisy,
    Quiet,
}

/// The rules: which moves are legal, and what playing one leads to.
pub trait Rules: Sized {
    /// The legal moves of a kind, in the order in which they are listed.
    spec fn moves(&self, b: BoardModel, filter: MoveFilter) -> Seq<Move>;

    /// The board after a move.
    spec fn played(&self, b: BoardModel, mv: Move) -> BoardModel;

    /// The board after a null move: the duck leaves the board and the turn passes.
    spec fn passed(&self, b: BoardModel) -> BoardModel;

    /// Whether the position counts as a repetition.
    spec fn repeated(&self, p: PositionModel) -> bool;

    /// The moves listed as noisy are the noisy ones, and those listed as quiet the
    /// quiet ones.
    proof fn moves_are_of_their_kind(&self, b: BoardModel, filter: MoveFilter, mv: Move)
        requires
            self.moves(b, filter).contains(mv),
        ensures
            mv.flag.noisy() == (filter is Noisy),
    ;

    /// Lists the legal moves of a kind. A move that takes what stands on its
    /// destination finds a piece there.
    fn gen_moves(&self, board: &Board, filter: MoveFilter) -> (r: Vec<Move>)
        ensures
            r@ == self.moves(board@, filter),
            forall|i: int|
                0 <= i < r@.len() && (#[trigger] r@[i]).flag.takes()
                    ==> board@.mailbox[r@[i].dest] is Some,
    ;

    /// Whether the side to move has a legal move.
    fn any_moves(&self, board: &Board) -> (r: bool)
        ensures
            r == (self.moves(board@, MoveFilter::Noisy).len() > 0 || self.moves(
                board@,
                MoveFilter::Quiet,
            ).len() > 0),
    ;

    /// Whether a move is among the legal ones.
    fn is_legal(&self, board: &Board, mv: Move) -> (r: bool)
        ensures
            r == (self.moves(board@, MoveFilter::Noisy).contains(mv) || self.moves(
                board@,
                MoveFilter::Quiet,
            ).contains(mv)),
    ;

    /// Plays a legal move. The turn passes, and a side never loses its king by
    /// its own move.
    fn play(&self, board: &Board, mv: Move) -> (r: Board)
        requires
            self.moves(board@, MoveFilter::Noisy).contains(mv) || self.moves(
                board@,
                MoveFilter::Quiet,
            ).contains(mv),
        ensures
            r@ == self.played(board@, mv),
            r@.stm == board@.stm.opponent(),
            board@.king_square(board@.stm) is Some ==> r@.king_square(board@.stm) is Some,
    ;

    /// Plays a null move: the duck leaves the board and the turn passes.
    fn play_null(&self, board: &Board) -> (r: Board)
        ensures
            r@ == self.passed(board@),
            r@.duck is None,
            r@.stm == board@.stm.opponent(),
    ;

    /// Whether the position counts as a repetition.
    fn repetition(&self, pos: &Position) -> (r: bool)
        requires
            pos.wf(),
        ensures
            r == self.repeated(pos@),
    ;
}

/// Whether the side to move has a legal move.
pub open spec fn has_moves<R: Rules>(rules: &R, b: BoardModel) -> bool {
    rules.moves(b, MoveFilter::Noisy).len() > 0 || rules.moves(b, MoveFilter::Quiet).len() > 0
}

/// Whether a move is among the legal ones.
pub open spec fn legal<R: Rules>(rules: &R, b: BoardModel, mv: Move) -> bool {
    rules.moves(b, MoveFilter::Noisy).contains(mv) || rules.moves(b, MoveFilter::Quiet).contains(mv)
}

} // verus!
