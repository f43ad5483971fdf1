//! A game in progress: the boards and the moves that led to the current one.

use crate::board::board::{Board, BoardModel};
use crate::common::moves::Move;
use crate::rules::{legal, Rules};
use vstd::prelude::*;

verus! {

pub struct Position {
    boards: Vec<Board>,
    moves: Vec<Option<Move>>,
}

/// The boards of a game, the current one last, and the moves between them. A
/// null move is recorded as `None`.
#[verifier::ext_equal]
pub struct PositionModel {
    pub boards: Seq<BoardModel>,
    pub moves: Seq<Option<Move>>,
}

impl PositionModel {
    pub open spec fn board(self) -> BoardModel {
        self.boards.last()
    }

    pub open spec fn after(self, board: BoardModel, mv: Option<Move>) -> PositionModel {
        PositionModel { boards: self.boards.push(board), moves: self.moves.push(mv) }
    }

    /// The position a legal move leads to.
    pub open spec fn after_move<R: Rules>(self, rules: &R, mv: Move) -> PositionModel {
        self.after(rules.played(self.board(), mv), Some(mv))
    }

    /// The position a null move leads to.
    pub open spec fn after_null<R: Rules>(self, rules: &R) -> PositionModel {
        self.after(rules.passed(self.board()), None)
    }

    pub open spec fn before(self) -> PositionModel {
        PositionModel { boards: self.boards.drop_last(), moves: self.moves.drop_last() }
    }
}

/// Whether the moves of a line can be played one after another.
pub open spec fn playable<R: Rules>(rules: &R, p: PositionModel, line: Seq<Move>) -> bool
    decreases line.len(),
{
    line.len() == 0 || legal(rules, p.board(), line[0]) && playable(
        rules,
        p.after_move(rules, line[0]),
        line.drop_first(),
    )
}

/// A legal move followed by a line that can be played after it can be played.
pub proof fn lines_grow_from_the_front<R: Rules>(
    rules: &R,
    p: PositionModel,
    mv: Move,
    line: Seq<Move>,
)
    requires
        legal(rules, p.board(), mv),
        playable(rules, p.after_move(rules, mv), line),
    ensures
        playable(rules, p, seq![mv] + line),
{
    assert((seq![mv] + line).drop_first() =~= line);
}

/// A move or a null move adds one board and one entry to the game and keeps the rest.
pub proof fn a_game_grows_by_one<R: Rules>(rules: &R, p: PositionModel, mv: Move)
    ensures
        ({
            let played = p.after_move(rules, mv);
            let passed = p.after_null(rules);
            let n = p.boards.len() as int;
            let m = p.moves.len() as int;
            &&& played.boards.len() == n + 1 && passed.boards.len() == n + 1
            &&& played.moves.len() == m + 1 && passed.moves.len() == m + 1
            &&& played.board() == rules.played(p.board(), mv) && played.moves[m] == Some(mv)
            &&& passed.board() == rules.passed(p.board()) && passed.moves[m] is None
            &&& forall|i: int| 0 <= i < n ==> #[trigger] played.boards[i] == p.boards[i]
            &&& forall|i: int| 0 <= i < n ==> #[trigger] passed.boards[i] == p.boards[i]
            &&& forall|i: int| 0 <= i < m ==> #[trigger] played.moves[i] == p.moves[i]
            &&& forall|i: int| 0 <= i < m ==> #[trigger] passed.moves[i] == p.moves[i]
        }),
{
}

/// Taking a move back gives the position it was played in.
pub proof fn unmake_undoes_make(p: PositionModel, board: BoardModel, mv: Option<Move>)
    ensures
        p.after(board, mv).before() == p,
{
    assert(p.after(board, mv).before() =~= p);
}

impl View for Position {
    type V = PositionModel;

    closed spec fn view(&self) -> PositionModel {
        PositionModel {
            boards: self.boards@.map_values(|b: Board| b@),
            moves: self.moves@,
        }
    }
}

impl Position {
    /// There is a current board, and one move between each board and the next.
    pub closed spec fn wf(&self) -> bool {
        self.boards@.len() == self.moves@.len() + 1
    }

    /// A game that starts from a board.
    pub fn new(board: Board) -> (r: Position)
        ensures
            r.wf(),
            r@ == (PositionModel { boards: seq![board@], moves: Seq::empty() }),
    {
        let mut boards: Vec<Board> = Vec::new();
        boards.push(board);
        let r = Position { boards, moves: Vec::new() };
        assert(r@ =~= (PositionModel { boards: seq![board@], moves: Seq::empty() }));
        r
    }

    pub fn board(&self) -> (r: &Board)
        requires
            self.wf(),
        ensures
            r@ == self@.board(),
    {
        &self.boards[self.boards.len() - 1]
    }

    /// The number of moves played, null moves among them.
    pub fn len(&self) -> (r: usize)
        ensures
            r == self@.moves.len(),
    {
        self.moves.len()
    }

    /// The move with the given number, counted from the start.
    pub fn played_move(&self, i: usize) -> (r: Option<Move>)
        requires
            i < self@.moves.len(),
        ensures
            r == self@.moves[i as int],
    {
        self.moves[i]
    }

    /// The board before the move with the given number.
    pub fn board_before(&self, i: usize) -> (r: &Board)
        requires
            self.wf(),
            i < self@.moves.len(),
        ensures
            r@ == self@.boards[i as int],
    {
        &self.boards[i]
    }

    pub fn make_move<R: Rules>(&mut self, rules: &R, mv: Move)
        requires
            old(self).wf(),
            legal(rules, old(self)@.board(), mv),
        ensures
            final(self).wf(),
            final(self)@ == old(self)@.after_move(rules, mv),
            old(self)@.board().king_square(old(self)@.board().stm) is Some
                ==> final(self)@.board().king_square(old(self)@.board().stm) is Some,
    {
        let next = rules.play(self.board(), mv);
        self.boards.push(next);
        self.moves.push(Some(mv));
        assert(self@ =~= old(self)@.after_move(rules, mv));
    }

    pub fn make_null_move<R: Rules>(&mut self, rules: &R)
        requires
            old(self).wf(),
        ensures
            final(self).wf(),
            final(self)@ == old(self)@.after_null(rules),
            final(self)@.board().duck is None,
            final(self)@.board().stm == old(self)@.board().stm.opponent(),
    {
        let next = rules.play_null(self.board());
        self.boards.push(next);
        self.moves.push(None);
        assert(self@ =~= old(self)@.after_null(rules));
    }

    /// Takes the last move back.
    pub fn unmake_move(&mut self)
        requires
            old(self).wf(),
            old(self)@.moves.len() > 0,
        ensures
            final(self).wf(),
            final(self)@ == old(self)@.before(),
    {
        self.boards.pop();
        self.moves.pop();
        assert(self@ =~= old(self)@.before());
    }

    pub fn repetition<R: Rules>(&self, rules: &R) -> (r: bool)
        requires
            self.wf(),
        ensures
            r == rules.repeated(self@),
    {
        rules.repetition(self)
    }
}

} // verus!
