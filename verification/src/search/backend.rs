//! What the search asks of its surroundings: the clock, the table of searched
//! positions, the evaluation, the statistics of earlier moves, and the tuned
//! numbers.

use crate::board::board::{Board, BoardModel};
use crate::common::moves::Move;
use crate::common::types::Piece;
use crate::position::{Position, PositionModel};
use crate::score::{in_range, Score};
use vstd::prelude::*;

verus! {

/// What a stored score says of the true one.
#[derive(Debug, Clone, Copy, PartialEq, Eq, Structural)]
pub enum TTFlag {
    Exact,
    Lower,
    Upper,
}

impl TTFlag {
    /// Whether a stored score settles a search with this window.
    pub open spec fn settles(self, score: int, alpha: int, beta: int) -> bool {
        match self {
            TTFlag::Exact => true,
            TTFlag::Lower => score >= beta,
            TTFlag::Upper => score <= alpha,
        }
    }

    pub fn bounds_match(self, score: Score, alpha: Score, beta: Score) -> (r: bool)
        ensures
            r == self.settles(score@, alpha@, beta@),
    {
        match self {
            TTFlag::Exact => true,
            TTFlag::Lower => score.0 >= beta.0,
            TTFlag::Upper => score.0 <= alpha.0,
        }
    }
}

/// What the table remembers of a searched position.
#[derive(Debug, Clone, Copy, PartialEq, Eq, Structural)]
pub struct TTEntry {
    pub best_move: Option<Move>,
    pub score: Score,
    pub depth: i32,
    pub flag: TTFlag,
}

/// The bound on evaluations, corrections and tuned numbers.
pub const MODERATE: i32 = 1_000_000;

/// The bound on a move's statistics.
pub const LARGE: i32 = 500_000_000;

pub open spec fn moderate(x: int) -> bool {
    -MODERATE <= x <= MODERATE
}

pub open spec fn large(x: int) -> bool {
    -LARGE <= x <= LARGE
}

/// The surroundings of a search. Each has a state; each operation answers from
/// the state and may move it on.
pub trait Backend: Sized {
    type State;

    spec fn state(&self) -> Self::State;

    // The clock.

    spec fn stopping(s: Self::State) -> bool;

    spec fn after_stopping(s: Self::State) -> Self::State;

    /// Whether the search has to stop.
    fn stop_search(&mut self) -> (r: bool)
        ensures
            r == Self::stopping(old(self).state()),
            final(self).state() == Self::after_stopping(old(self).state()),
    ;

    spec fn after_set_stop(s: Self::State, stop: bool) -> Self::State;

    /// Tells every thread whether to stop.
    fn set_stop(&mut self, stop: bool)
        ensures
            final(self).state() == Self::after_set_stop(old(self).state(), stop),
    ;

    spec fn after_node(s: Self::State) -> Self::State;

    /// Counts a searched position.
    fn count_node(&mut self)
        ensures
            final(self).state() == Self::after_node(old(self).state()),
    ;

    spec fn after_flush(s: Self::State) -> Self::State;

    /// Makes the count of searched positions visible to every thread.
    fn flush_nodes(&mut self)
        ensures
            final(self).state() == Self::after_flush(old(self).state()),
    ;

    spec fn enough(s: Self::State, completed_depth: int) -> bool;

    spec fn after_enough(s: Self::State, completed_depth: int) -> Self::State;

    /// Whether deepening stops after this depth.
    fn stop_id(&mut self, completed_depth: i32) -> (r: bool)
        ensures
            r == Self::enough(old(self).state(), completed_depth as int),
            final(self).state() == Self::after_enough(
                old(self).state(),
                completed_depth as int,
            ),
    ;

    spec fn after_deepen(s: Self::State, depth: int) -> Self::State;

    /// Says that a search to this depth is about to start.
    fn deepen(&mut self, depth: i32)
        ensures
            final(self).state() == Self::after_deepen(old(self).state(), depth as int),
    ;

    // The table of searched positions.

    spec fn entry(s: Self::State, key: u64) -> Option<TTEntry>;

    spec fn after_probe(s: Self::State, key: u64) -> Self::State;

    /// What the table remembers under a key.
    fn probe(&mut self, key: u64) -> (r: Option<TTEntry>)
        ensures
            r == Self::entry(old(self).state(), key),
            final(self).state() == Self::after_probe(old(self).state(), key),
            r matches Some(e) ==> in_range(e.score@),
    ;

    spec fn after_insert(
        s: Self::State,
        key: u64,
        best_move: Option<Move>,
        score: int,
        depth: int,
        flag: TTFlag,
    ) -> Self::State;

    /// Stores the outcome of a search under a key.
    fn insert(
        &mut self,
        key: u64,
        best_move: Option<Move>,
        score: Score,
        depth: i32,
        flag: TTFlag,
    )
        ensures
            final(self).state() == Self::after_insert(
                old(self).state(),
                key,
                best_move,
                score@,
                depth as int,
                flag,
            ),
    ;

    // The evaluation.

    spec fn eval_of(s: Self::State, b: BoardModel) -> int;

    /// The evaluation of a board.
    fn eval(&self, board: &Board) -> (r: Score)
        ensures
            r@ == Self::eval_of(self.state(), board@),
            moderate(r@),
    ;

    // The statistics of earlier moves.

    spec fn corr_of(s: Self::State, b: BoardModel) -> int;

    /// The correction that earlier searches suggest for the evaluation.
    fn corr(&self, board: &Board) -> (r: i32)
        ensures
            r == Self::corr_of(self.state(), board@),
            moderate(r as int),
    ;

    spec fn noisy_of(s: Self::State, b: BoardModel, mv: Move) -> int;

    /// How well a noisy move has done.
    fn noisy(&self, board: &Board, mv: Move) -> (r: i32)
        ensures
            r == Self::noisy_of(self.state(), board@, mv),
            large(r as int),
    ;

    spec fn quiet_of(s: Self::State, b: BoardModel, mv: Move) -> int;

    /// How well a quiet move has done.
    fn quiet(&self, board: &Board, mv: Move) -> (r: i32)
        ensures
            r == Self::quiet_of(self.state(), board@, mv),
            large(r as int),
    ;

    spec fn duck_of(s: Self::State, b: BoardModel, mv: Move) -> int;

    /// How well the duck's square has done.
    fn duck(&self, board: &Board, mv: Move) -> (r: i32)
        ensures
            r == Self::duck_of(self.state(), board@, mv),
            large(r as int),
    ;

    spec fn cont_of(s: Self::State, p: PositionModel, mv: Move) -> int;

    /// How well a move has done as a continuation of the moves played.
    fn cont(&self, pos: &Position, mv: Move) -> (r: i32)
        requires
            pos.wf(),
        ensures
            r == Self::cont_of(self.state(), pos@, mv),
            large(r as int),
    ;

    spec fn after_update(
        s: Self::State,
        p: PositionModel,
        depth: int,
        best_move: Move,
        quiets: Seq<Move>,
        noisies: Seq<Move>,
    ) -> Self::State;

    /// Learns that a move was good enough and those tried before it were not.
    fn update(
        &mut self,
        pos: &Position,
        depth: i32,
        best_move: Move,
        quiets: &Vec<Move>,
        noisies: &Vec<Move>,
    )
        requires
            pos.wf(),
        ensures
            final(self).state() == Self::after_update(
                old(self).state(),
                pos@,
                depth as int,
                best_move,
                quiets@,
                noisies@,
            ),
    ;

    spec fn after_update_corr(
        s: Self::State,
        b: BoardModel,
        depth: int,
        best_score: int,
        static_eval: int,
    ) -> Self::State;

    /// Learns by how much the evaluation was off.
    fn update_corr(&mut self, board: &Board, depth: i32, best_score: Score, static_eval: Score)
        ensures
            final(self).state() == Self::after_update_corr(
                old(self).state(),
                board@,
                depth as int,
                best_score@,
                static_eval@,
            ),
    ;

    // The tuned numbers.

    spec fn worth(piece: Piece) -> int;

    fn piece_value(piece: Piece) -> (r: i32)
        ensures
            r == Self::worth(piece),
            moderate(r as int),
    ;

    spec fn rfp_reach() -> int;

    /// The greatest depth at which reverse futility pruning is tried.
    fn rfp_depth() -> (r: i32)
        ensures
            r == Self::rfp_reach(),
    ;

    spec fn rfp_slack(depth: int, improving: bool) -> int;

    /// How far above beta reverse futility pruning wants the evaluation.
    fn rfp_margin(depth: i32, improving: bool) -> (r: i32)
        ensures
            r == Self::rfp_slack(depth as int, improving),
            moderate(r as int),
    ;

    spec fn nmr_slack() -> int;

    /// How far above beta a null move wants the evaluation.
    fn nmr_margin() -> (r: i32)
        ensures
            r == Self::nmr_slack(),
            moderate(r as int),
    ;

    /// Duck pruning spares the first duck square of a move and the first move of
    /// a duck square.
    proof fn limits_are_positive(depth: int, is_quiet: bool, improving: bool)
        ensures
            Self::ldp_limit(depth, is_quiet, improving) > 0,
            Self::dcp_limit(depth, improving) > 0,
    ;

    spec fn ldp_reach(is_quiet: bool) -> int;

    /// The greatest depth at which late duck pruning is tried.
    fn ldp_depth(is_quiet: bool) -> (r: i32)
        ensures
            r == Self::ldp_reach(is_quiet),
    ;

    spec fn ldp_limit(depth: int, is_quiet: bool, improving: bool) -> int;

    /// The number of duck squares that late duck pruning tries for one move.
    fn ldp_threshold(depth: i32, is_quiet: bool, improving: bool) -> (r: u8)
        ensures
            r == Self::ldp_limit(depth as int, is_quiet, improving),
            r > 0,
    ;

    spec fn dcp_reach() -> int;

    /// The greatest depth at which duck count pruning is tried.
    fn dcp_depth() -> (r: i32)
        ensures
            r == Self::dcp_reach(),
    ;

    spec fn dcp_limit(depth: int, improving: bool) -> int;

    /// The number of moves that duck count pruning tries for one duck square.
    fn dcp_threshold(depth: i32, improving: bool) -> (r: u8)
        ensures
            r == Self::dcp_limit(depth as int, improving),
            r > 0,
    ;

    spec fn qsldp_limit() -> int;

    /// The number of duck squares that the quiescence search tries for one move.
    fn qsldp_threshold() -> (r: u8)
        ensures
            r == Self::qsldp_limit(),
    ;

    spec fn qsdcp_limit() -> int;

    /// The number of moves that the quiescence search tries for one duck square.
    fn qsdcp_threshold() -> (r: u8)
        ensures
            r == Self::qsdcp_limit(),
    ;
}

} // verus!
