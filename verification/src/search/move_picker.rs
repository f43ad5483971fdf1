//! Hands out the moves of a position one at a time, the promising first, and
//! lists and scores them only when they are needed.

use crate::board::board::BoardModel;
use crate::common::moves::Move;
use crate::position::{Position, PositionModel};
use crate::rules::{legal, MoveFilter, Rules};
use crate::search::backend::Backend;
use crate::search::move_stack::{unscored, ScoredMove};
use crate::search::ordering::{
    moves_scored, ranked, ranking_keeps_every_move, ranking_moves_only, same_move, score_noisies,
    score_quiets,
};
use crate::search::thread::ThreadData;
use vstd::prelude::*;

verus! {

/// What the picker does next.
#[derive(Debug, Clone, Copy, PartialEq, Eq, PartialOrd, Ord, Structural)]
pub enum Stage {
    TTMove,
    GenerateNoisies,
    YieldNoisies,
    GenerateQuiets,
    YieldQuiets,
    Finished,
}

impl Stage {
    /// The number of stages that follow.
    pub open spec fn ahead(self) -> int {
        match self {
            Stage::TTMove => 5,
            Stage::GenerateNoisies => 4,
            Stage::YieldNoisies => 3,
            Stage::GenerateQuiets => 2,
            Stage::YieldQuiets => 1,
            Stage::Finished => 0,
        }
    }
}

/// Hands out the move from the table, then the noisy moves, then the quiet ones.
pub struct MovePicker {
    stage: Stage,
    tt_move: Option<Move>,
    skip_quiets: bool,
    cursor: usize,
}

/// The state of a picker: its stage, the move from the table, whether quiet moves
/// are left out, and how much of the list it has been through.
pub struct PickerModel {
    pub stage: Stage,
    pub tt_move: Option<Move>,
    pub skip_quiets: bool,
    pub cursor: int,
}

/// What comes of asking a picker for a move.
pub struct Turn {
    pub picker: PickerModel,
    pub list: Seq<ScoredMove>,
    pub mv: Option<Move>,
}

impl View for MovePicker {
    type V = PickerModel;

    closed spec fn view(&self) -> PickerModel {
        PickerModel {
            stage: self.stage,
            tt_move: self.tt_move,
            skip_quiets: self.skip_quiets,
            cursor: self.cursor as int,
        }
    }
}

/// The first place from `cursor` on that does not hold the move from the table,
/// or the end of the list.
pub open spec fn next_other(list: Seq<ScoredMove>, tt_move: Option<Move>, cursor: int) -> int
    decreases list.len() - cursor,
{
    if cursor >= list.len() {
        list.len() as int
    } else if tt_move != Some(list[cursor].0) {
        cursor
    } else {
        next_other(list, tt_move, cursor + 1)
    }
}

impl PickerModel {
    pub open spec fn at(self, stage: Stage) -> PickerModel {
        PickerModel { stage, ..self }
    }

    /// The next move of the list, if there is one left.
    pub open spec fn yielded(self, list: Seq<ScoredMove>) -> Turn {
        let i = next_other(list, self.tt_move, self.cursor);
        if i < list.len() {
            Turn { picker: PickerModel { cursor: i + 1, ..self }, list, mv: Some(list[i].0) }
        } else {
            let cursor = if self.cursor > i {
                self.cursor
            } else {
                i
            };
            Turn { picker: PickerModel { cursor, ..self }, list, mv: None }
        }
    }

    pub open spec fn yield_quiets(self, list: Seq<ScoredMove>) -> Turn {
        if self.skip_quiets {
            Turn { picker: self.at(Stage::Finished), list, mv: None }
        } else {
            let turn = self.yielded(list);
            if turn.mv is Some {
                turn
            } else {
                Turn { picker: turn.picker.at(Stage::Finished), list, mv: None }
            }
        }
    }

    pub open spec fn generate_quiets<R: Rules, B: Backend>(
        self,
        rules: &R,
        s: B::State,
        p: PositionModel,
        list: Seq<ScoredMove>,
    ) -> Turn {
        if self.skip_quiets {
            Turn { picker: self.at(Stage::Finished), list, mv: None }
        } else {
            self.at(Stage::YieldQuiets).yield_quiets(
                list + ranked_quiets::<R, B>(rules, s, p, self.tt_move),
            )
        }
    }

    pub open spec fn yield_noisies<R: Rules, B: Backend>(
        self,
        rules: &R,
        s: B::State,
        p: PositionModel,
        list: Seq<ScoredMove>,
    ) -> Turn {
        let turn = self.yielded(list);
        if turn.mv is Some {
            turn
        } else {
            turn.picker.at(Stage::GenerateQuiets).generate_quiets::<R, B>(rules, s, p, list)
        }
    }

    pub open spec fn generate_noisies<R: Rules, B: Backend>(
        self,
        rules: &R,
        s: B::State,
        p: PositionModel,
        list: Seq<ScoredMove>,
    ) -> Turn {
        self.at(Stage::YieldNoisies).yield_noisies::<R, B>(
            rules,
            s,
            p,
            list + ranked_noisies::<R, B>(rules, s, p, self.tt_move),
        )
    }

    /// Whether the next move depends on a list: not when the picker is finished, nor
    /// when the move from the table is due and legal.
    pub open spec fn reads_list<R: Rules>(self, rules: &R, b: BoardModel) -> bool {
        match self.stage {
            Stage::TTMove => !(self.tt_move is Some && legal(rules, b, self.tt_move->0)),
            Stage::Finished => false,
            _ => true,
        }
    }

    /// What comes of asking for the next move.
    #[verifier::opaque]
    pub open spec fn pick<R: Rules, B: Backend>(
        self,
        rules: &R,
        s: B::State,
        p: PositionModel,
        list: Seq<ScoredMove>,
    ) -> Turn {
        match self.stage {
            Stage::TTMove => {
                let next = self.at(Stage::GenerateNoisies);
                if self.tt_move is Some && legal(rules, p.board(), self.tt_move->0) {
                    Turn { picker: next, list, mv: self.tt_move }
                } else {
                    next.generate_noisies::<R, B>(rules, s, p, list)
                }
            },
            Stage::GenerateNoisies => self.generate_noisies::<R, B>(rules, s, p, list),
            Stage::YieldNoisies => self.yield_noisies::<R, B>(rules, s, p, list),
            Stage::GenerateQuiets => self.generate_quiets::<R, B>(rules, s, p, list),
            Stage::YieldQuiets => self.yield_quiets(list),
            Stage::Finished => Turn { picker: self, list, mv: None },
        }
    }
}

/// The legal moves of a kind, scored, the best first.
pub open spec fn ranked_moves<R: Rules, B: Backend>(
    filter: MoveFilter,
    rules: &R,
    s: B::State,
    p: PositionModel,
    tt_move: Option<Move>,
) -> Seq<ScoredMove> {
    ranked(moves_scored::<B>(filter, s, p, tt_move, unscored(rules.moves(p.board(), filter))))
}

/// The legal noisy moves, scored, the best first.
pub open spec fn ranked_noisies<R: Rules, B: Backend>(
    rules: &R,
    s: B::State,
    p: PositionModel,
    tt_move: Option<Move>,
) -> Seq<ScoredMove> {
    ranked_moves::<R, B>(MoveFilter::Noisy, rules, s, p, tt_move)
}

/// The legal quiet moves, scored, the best first.
pub open spec fn ranked_quiets<R: Rules, B: Backend>(
    rules: &R,
    s: B::State,
    p: PositionModel,
    tt_move: Option<Move>,
) -> Seq<ScoredMove> {
    ranked_moves::<R, B>(MoveFilter::Quiet, rules, s, p, tt_move)
}

/// Whether every move of a list is legal.
pub open spec fn all_legal<R: Rules>(rules: &R, b: BoardModel, list: Seq<ScoredMove>) -> bool {
    forall|i: int| 0 <= i < list.len() ==> legal(rules, b, (#[trigger] list[i]).0)
}

/// The next place lies within the list or at its end, holds another move than that
/// from the table, and skips no other.
pub proof fn lemma_next_other(list: Seq<ScoredMove>, tt_move: Option<Move>, cursor: int)
    ensures
        cursor <= list.len() ==> cursor <= next_other(list, tt_move, cursor),
        next_other(list, tt_move, cursor) <= list.len(),
        next_other(list, tt_move, cursor) < list.len() ==> tt_move != Some(
            list[next_other(list, tt_move, cursor)].0,
        ),
        forall|i: int|
            cursor <= i < next_other(list, tt_move, cursor) ==> tt_move == Some(
                (#[trigger] list[i]).0,
            ),
    decreases list.len() - cursor,
{
    if cursor < list.len() && tt_move == Some(list[cursor].0) {
        lemma_next_other(list, tt_move, cursor + 1);
    }
}

/// The ranked moves of a kind are as many as the rules list, and all legal.
pub proof fn ranked_moves_are_legal<R: Rules, B: Backend>(
    filter: MoveFilter,
    rules: &R,
    s: B::State,
    p: PositionModel,
    tt_move: Option<Move>,
)
    ensures
        all_legal(rules, p.board(), ranked_moves::<R, B>(filter, rules, s, p, tt_move)),
        ranked_moves::<R, B>(filter, rules, s, p, tt_move).len() == rules.moves(
            p.board(),
            filter,
        ).len(),
{
    let moves = rules.moves(p.board(), filter);
    let scored = moves_scored::<B>(filter, s, p, tt_move, unscored(moves));
    let list = ranked_moves::<R, B>(filter, rules, s, p, tt_move);
    ranking_keeps_every_move(scored);
    assert forall|i: int| 0 <= i < list.len() implies legal(
        rules,
        p.board(),
        (#[trigger] list[i]).0,
    ) by {
        ranking_moves_only(scored, list[i]);
        assert(list.contains(list[i]));
        let k = choose|k: int| 0 <= k < scored.len() && scored[k] == list[i];
        assert(moves[k] == list[i].0);
        assert(moves.contains(moves[k]));
    }
}

proof fn lemma_yielded<R: Rules>(rules: &R, b: BoardModel, pk: PickerModel, list: Seq<ScoredMove>)
    requires
        0 <= pk.cursor,
    ensures
        pk.cursor <= pk.yielded(list).picker.cursor,
        pk.cursor <= list.len() ==> pk.yielded(list).picker.cursor <= list.len(),
        pk.yielded(list).mv matches Some(mv) ==> pk.tt_move != Some(mv)
            && pk.yielded(list).picker.cursor > pk.cursor,
        all_legal(rules, b, list) ==> (pk.yielded(list).mv matches Some(mv) ==> legal(
            rules,
            b,
            mv,
        )),
{
    lemma_next_other(list, pk.tt_move, pk.cursor);
}

proof fn lemma_all_legal_joined<R: Rules>(
    rules: &R,
    b: BoardModel,
    left: Seq<ScoredMove>,
    right: Seq<ScoredMove>,
)
    requires
        all_legal(rules, b, right),
    ensures
        all_legal(rules, b, left) ==> all_legal(rules, b, left + right),
{
    if all_legal(rules, b, left) {
        assert forall|i: int| 0 <= i < (left + right).len() implies legal(
            rules,
            b,
            (#[trigger] (left + right)[i]).0,
        ) by {
            if i < left.len() {
                assert((left + right)[i] == left[i]);
            } else {
                assert((left + right)[i] == right[i - left.len()]);
            }
        }
    }
}

/// A picker keeps its move from the table and whether quiet moves are left out, and
/// goes back neither in its stages nor in its list. With each move it makes
/// progress: it enters a later stage, or goes on in the same list. The move from
/// the table is handed out first or not at all. If the moves of its list are
/// legal, so are those it adds and the one it hands out. When it has none left, it
/// is finished.
pub proof fn picks_are_legal_and_run_out<R: Rules, B: Backend>(
    rules: &R,
    s: B::State,
    p: PositionModel,
    pk: PickerModel,
    list: Seq<ScoredMove>,
)
    requires
        0 <= pk.cursor,
    ensures
        ({
            let turn = pk.pick::<R, B>(rules, s, p, list);
            &&& turn.picker.tt_move == pk.tt_move
            &&& turn.picker.skip_quiets == pk.skip_quiets
            &&& turn.picker.stage.ahead() <= pk.stage.ahead()
            &&& pk.cursor <= turn.picker.cursor
            &&& pk.cursor <= list.len() ==> turn.picker.cursor <= turn.list.len()
            &&& turn.mv matches Some(mv) ==> {
                &&& pk.tt_move == Some(mv) ==> pk.stage is TTMove
                &&& turn.picker.stage.ahead() < pk.stage.ahead() || (turn.picker.stage == pk.stage
                    && turn.list == list && turn.picker.cursor > pk.cursor)
            }
            &&& all_legal(rules, p.board(), list) ==> {
                &&& all_legal(rules, p.board(), turn.list)
                &&& turn.mv matches Some(mv) ==> legal(rules, p.board(), mv)
            }
            &&& turn.mv is None ==> turn.picker.stage is Finished
            &&& !pk.reads_list(rules, p.board()) ==> turn.list == list
        }),
{
    reveal(PickerModel::pick);
    let b = p.board();
    let noisies = ranked_noisies::<R, B>(rules, s, p, pk.tt_move);
    let quiets = ranked_quiets::<R, B>(rules, s, p, pk.tt_move);
    ranked_moves_are_legal::<R, B>(MoveFilter::Noisy, rules, s, p, pk.tt_move);
    ranked_moves_are_legal::<R, B>(MoveFilter::Quiet, rules, s, p, pk.tt_move);
    lemma_all_legal_joined(rules, b, list, noisies);
    lemma_all_legal_joined(rules, b, list, quiets);
    lemma_all_legal_joined(rules, b, list + noisies, quiets);
    let yn = pk.at(Stage::YieldNoisies);
    lemma_yielded(rules, b, yn, list + noisies);
    lemma_yielded(rules, b, yn, list);
    let after_noisies = yn.yielded(list + noisies).picker.at(Stage::YieldQuiets);
    lemma_yielded(rules, b, after_noisies, list + noisies + quiets);
    let after_list = yn.yielded(list).picker.at(Stage::YieldQuiets);
    lemma_yielded(rules, b, after_list, list + quiets);
    lemma_yielded(rules, b, pk.at(Stage::YieldQuiets), list + quiets);
    lemma_yielded(rules, b, pk.at(Stage::YieldQuiets), list);
    assert(pk.stage is YieldNoisies ==> pk == yn);
    assert(pk.stage is YieldQuiets ==> pk == pk.at(Stage::YieldQuiets));
}

/// A picker that has once had no move to hand out is finished, and a finished
/// picker hands out nothing and changes nothing, whatever the position, the list
/// and the surroundings are by then.
pub proof fn a_finished_picker_stays_finished<R: Rules, B: Backend>(
    rules: &R,
    s: B::State,
    p: PositionModel,
    pk: PickerModel,
    list: Seq<ScoredMove>,
    s2: B::State,
    p2: PositionModel,
    list2: Seq<ScoredMove>,
)
    requires
        0 <= pk.cursor,
        pk.pick::<R, B>(rules, s, p, list).mv is None,
    ensures
        ({
            let ended = pk.pick::<R, B>(rules, s, p, list).picker;
            &&& ended.stage is Finished
            &&& ended.pick::<R, B>(rules, s2, p2, list2) == (Turn {
                picker: ended,
                list: list2,
                mv: None,
            })
        }),
{
    reveal(PickerModel::pick);
    picks_are_legal_and_run_out::<R, B>(rules, s, p, pk, list);
}

impl MovePicker {
    pub fn new(tt_move: Option<Move>) -> (r: MovePicker)
        ensures
            r@ == (PickerModel { stage: Stage::TTMove, tt_move, skip_quiets: false, cursor: 0 }),
    {
        MovePicker { stage: Stage::TTMove, tt_move, skip_quiets: false, cursor: 0 }
    }

    /// Leaves out the quiet moves that have not been handed out yet.
    pub fn skip_quiets(&mut self)
        ensures
            final(self)@ == (PickerModel {
                skip_quiets: true,
                stage: if old(self)@.stage is GenerateQuiets || old(self)@.stage is YieldQuiets {
                    Stage::Finished
                } else {
                    old(self)@.stage
                },
                ..old(self)@
            }),
    {
        self.skip_quiets = true;
        if matches!(self.stage, Stage::GenerateQuiets | Stage::YieldQuiets) {
            self.stage = Stage::Finished;
        }
    }

    /// The next move to search, if there is one. The lists of moves stand in the
    /// current ply of the thread's move stack.
    pub fn next<R: Rules, B: Backend>(
        &mut self,
        pos: &Position,
        thread: &mut ThreadData,
        rules: &R,
        shared: &B,
    ) -> (r: Option<Move>)
        requires
            pos.wf(),
            old(thread).move_stack.wf(),
            old(self)@.reads_list(rules, pos@.board()) ==> old(thread).lists().len() > 0,
        ensures
            final(thread).move_stack.wf(),
            old(thread).wf() ==> final(thread).wf(),
            final(thread)@ == old(thread)@,
            ({
                let turn = old(self)@.pick::<R, B>(
                    rules,
                    shared.state(),
                    pos@,
                    old(thread).lists().last(),
                );
                &&& final(self)@ == turn.picker
                &&& r == turn.mv
                &&& old(thread).lists().len() > 0 ==> final(thread).lists()
                    == old(thread).lists().update(old(thread).lists().len() - 1, turn.list)
            }),
            final(thread).lists().len() == old(thread).lists().len(),
            final(thread).lists().drop_last() == old(thread).lists().drop_last(),
            !old(self)@.reads_list(rules, pos@.board()) ==> final(thread).lists()
                == old(thread).lists(),
            final(self)@.tt_move == old(self)@.tt_move,
            final(self)@.skip_quiets == old(self)@.skip_quiets,
            final(self)@.stage.ahead() <= old(self)@.stage.ahead(),
            0 <= old(self)@.cursor <= final(self)@.cursor,
            old(self)@.cursor <= old(thread).lists().last().len() ==> final(self)@.cursor
                <= final(thread).lists().last().len(),
            all_legal(rules, pos@.board(), old(thread).lists().last()) ==> {
                &&& all_legal(rules, pos@.board(), final(thread).lists().last())
                &&& r matches Some(mv) ==> legal(rules, pos@.board(), mv)
            },
            r is None ==> final(self)@.stage is Finished,
            old(self)@.stage is Finished ==> {
                &&& r is None
                &&& final(self)@ == old(self)@
                &&& final(thread).lists() == old(thread).lists()
            },
    {
        let ghost lists = thread.lists();
        let ghost turn = self@.pick::<R, B>(rules, shared.state(), pos@, lists.last());
        proof {
            picks_are_legal_and_run_out::<R, B>(rules, shared.state(), pos@, self@, lists.last());
            if self.stage is Finished {
                reveal(PickerModel::pick);
            }
        }
        let r = self.step(pos, thread, rules, shared);
        proof {
            if lists.len() > 0 {
                assert(thread.lists().last() == turn.list);
                assert(thread.lists().drop_last() =~= lists.drop_last());
            }
        }
        r
    }

    /// Goes through the stages from the current one until there is a move.
    fn step<R: Rules, B: Backend>(
        &mut self,
        pos: &Position,
        thread: &mut ThreadData,
        rules: &R,
        shared: &B,
    ) -> (r: Option<Move>)
        requires
            pos.wf(),
            old(thread).move_stack.wf(),
            old(self)@.reads_list(rules, pos@.board()) ==> old(thread).lists().len() > 0,
        ensures
            final(thread).move_stack.wf(),
            old(thread).wf() ==> final(thread).wf(),
            final(thread)@ == old(thread)@,
            ({
                let turn = old(self)@.pick::<R, B>(
                    rules,
                    shared.state(),
                    pos@,
                    old(thread).lists().last(),
                );
                &&& final(self)@ == turn.picker
                &&& r == turn.mv
                &&& old(thread).lists().len() > 0 ==> final(thread).lists()
                    == old(thread).lists().update(old(thread).lists().len() - 1, turn.list)
            }),
            !old(self)@.reads_list(rules, pos@.board()) ==> final(thread).lists()
                == old(thread).lists(),
    {
        let ghost lists = thread.lists();
        let ghost s = shared.state();
        let ghost top = lists.len() - 1;
        proof {
            reveal(PickerModel::pick);
            if lists.len() > 0 {
                assert(lists =~= lists.update(top, lists.last()));
            }
        }
        let board = pos.board();
        if self.stage == Stage::TTMove {
            self.stage = Stage::GenerateNoisies;
            if let Some(mv) = self.tt_move {
                if rules.is_legal(board, mv) {
                    return Some(mv);
                }
            }
        }
        if self.stage == Stage::GenerateNoisies {
            let ghost list = thread.lists().last();
            let start = thread.move_stack.add_moves(board, rules, MoveFilter::Noisy);
            let ghost grown = thread.lists().last();
            let moves = thread.move_stack.get_mut();
            proof {
                assert(grown.take(start as int) =~= list);
                assert(grown.skip(start as int) =~= unscored(
                    rules.moves(pos@.board(), MoveFilter::Noisy),
                ));
            }
            score_noisies(self.tt_move, pos, shared, moves, start);
            self.stage = Stage::YieldNoisies;
            proof {
                let noisies = ranked_noisies::<R, B>(rules, s, pos@, self.tt_move);
                ranked_moves_are_legal::<R, B>(MoveFilter::Noisy, rules, s, pos@, self.tt_move);
                assert(thread.lists() =~= lists.update(top, list + noisies));
            }
        }
        if self.stage == Stage::YieldNoisies {
            let found = self.yield_next(thread);
            if let Some(mv) = found {
                return Some(mv);
            }
            self.stage = Stage::GenerateQuiets;
        }
        if self.stage == Stage::GenerateQuiets {
            if self.skip_quiets {
                self.stage = Stage::Finished;
            } else {
                let ghost list = thread.lists().last();
                let start = thread.move_stack.add_moves(board, rules, MoveFilter::Quiet);
                let ghost grown = thread.lists().last();
                let moves = thread.move_stack.get_mut();
                proof {
                    assert(grown.take(start as int) =~= list);
                    assert(grown.skip(start as int) =~= unscored(
                        rules.moves(pos@.board(), MoveFilter::Quiet),
                    ));
                }
                score_quiets(self.tt_move, pos, shared, moves, start);
                self.stage = Stage::YieldQuiets;
                proof {
                    let quiets = ranked_quiets::<R, B>(rules, s, pos@, self.tt_move);
                    ranked_moves_are_legal::<R, B>(MoveFilter::Quiet, rules, s, pos@, self.tt_move);
                    assert(thread.lists() =~= lists.update(top, list + quiets));
                }
            }
        }
        if self.stage == Stage::YieldQuiets {
            if !self.skip_quiets {
                let found = self.yield_next(thread);
                if let Some(mv) = found {
                    return Some(mv);
                }
            }
            self.stage = Stage::Finished;
        }
        None
    }

    /// The next move of the list that is not the one from the table.
    fn yield_next(&mut self, thread: &ThreadData) -> (r: Option<Move>)
        requires
            thread.move_stack.wf(),
            thread.lists().len() > 0,
        ensures
            final(self)@ == old(self)@.yielded(thread.lists().last()).picker,
            r == old(self)@.yielded(thread.lists().last()).mv,
    {
        let moves = thread.move_stack.get();
        let ghost from = self.cursor as int;
        while self.cursor < moves.len()
            invariant
                moves@ == thread.lists().last(),
                from == old(self)@.cursor,
                from <= self.cursor,
                self.cursor <= moves@.len() || self.cursor == from,
                self@ == (PickerModel { cursor: self.cursor as int, ..old(self)@ }),
                next_other(moves@, self.tt_move, from) == next_other(
                    moves@,
                    self.tt_move,
                    self.cursor as int,
                ),
            decreases moves@.len() - self.cursor,
        {
            let mv = moves[self.cursor].0;
            self.cursor += 1;
            // The move from the table has been handed out already.
            if !same_move(self.tt_move, mv) {
                return Some(mv);
            }
        }
        None
    }
}

} // verus!
