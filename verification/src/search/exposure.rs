//! What a node remembers of the squares from which the duck saves the king is what
//! the move at hand calls for.

use crate::board::board::BoardModel;
use crate::common::moves::Move;
use crate::common::types::{square_numbers_are_exact, Square};
use crate::position::PositionModel;
use crate::rules::{legal, Rules};
use crate::score::mated_in;
use crate::search::backend::Backend;
use crate::search::model::{
    fresh_quiet_tally, fresh_tally, lost_at_once, move_searched, moves_searched, noisy_searched,
    safety_known, turns_run_out, weighed, NodeType, QuietTally, Safety, Tally, World,
};
use crate::search::move_picker::{all_legal, picks_are_legal_and_run_out};
use crate::search::MAX_PLY;
use vstd::prelude::*;

verus! {

/// The squares from which the duck keeps the mover's king from being captured after
/// a move.
pub open spec fn saving_after<R: Rules>(rules: &R, b: BoardModel, mv: Move) -> Set<Square> {
    let after = rules.played(b, mv);
    after.saving_squares(after.stm.opponent())
}

/// Whether these squares depend on the way of the piece alone: moves with the same
/// origin and destination leave the same ones, whatever becomes of the duck.
pub open spec fn decided_by_the_way<R: Rules>(rules: &R, b: BoardModel) -> bool {
    forall|x: Move, y: Move| #[trigger]
        legal(rules, b, x) && #[trigger] legal(rules, b, y) && x.src == y.src && x.dest == y.dest
            ==> saving_after(rules, b, x) == saving_after(rules, b, y)
}

/// Whether a remembered entry came from a legal move with its origin to the given
/// destination.
pub open spec fn came_from<R: Rules>(
    rules: &R,
    b: BoardModel,
    entry: Safety,
    at: int,
    mv: Move,
) -> bool {
    &&& legal(rules, b, mv)
    &&& mv.src == entry.src
    &&& mv.dest.number() == at
    &&& entry.squares == saving_after(rules, b, mv)
}

/// Whether there is a place for every destination, and every remembered entry came
/// from a legal move.
pub open spec fn well_remembered<R: Rules>(
    rules: &R,
    b: BoardModel,
    safety: Seq<Option<Safety>>,
) -> bool {
    &&& safety.len() == 64
    &&& forall|at: int|
        0 <= at < 64 && (#[trigger] safety[at]) is Some ==> exists|mv: Move| #[trigger]
            came_from(rules, b, safety[at]->0, at, mv)
}

/// A node starts with nothing remembered.
pub proof fn nothing_is_remembered_at_first<R: Rules>(
    rules: &R,
    b: BoardModel,
    tt_move: Option<Move>,
    alpha: int,
    depth: int,
    best_score: int,
)
    ensures
        well_remembered(rules, b, fresh_tally(tt_move, alpha, depth).duck_safety),
        well_remembered(rules, b, fresh_quiet_tally(tt_move, alpha, best_score).duck_safety),
{
}

/// Coming to a legal move keeps what is remembered well remembered.
pub proof fn legal_moves_are_well_remembered<R: Rules>(
    rules: &R,
    b: BoardModel,
    safety: Seq<Option<Safety>>,
    mv: Move,
)
    requires
        well_remembered(rules, b, safety),
        legal(rules, b, mv),
    ensures
        well_remembered(rules, b, safety_known(rules, b, safety, mv)),
{
    square_numbers_are_exact(mv.dest, 0);
    let after = safety_known(rules, b, safety, mv);
    assert forall|at: int| 0 <= at < 64 && (#[trigger] after[at]) is Some implies exists|m: Move|
        #[trigger] came_from(rules, b, after[at]->0, at, m) by {
        if after[at] != safety[at] {
            assert(came_from(rules, b, after[at]->0, at, mv));
        } else {
            assert(safety[at] is Some);
        }
    }
}

/// Where the saving squares depend on the way of the piece alone, what is
/// remembered for a legal move are the squares that this move calls for.
pub proof fn the_remembered_squares_are_those_of_the_move<R: Rules>(
    rules: &R,
    b: BoardModel,
    safety: Seq<Option<Safety>>,
    mv: Move,
)
    requires
        well_remembered(rules, b, safety),
        decided_by_the_way(rules, b),
        legal(rules, b, mv),
    ensures
        safety_known(rules, b, safety, mv)[mv.dest.number()] is Some,
        safety_known(rules, b, safety, mv)[mv.dest.number()]->0.squares == rules.played(
            b,
            mv,
        ).saving_squares(rules.played(b, mv).stm.opponent()),
{
    square_numbers_are_exact(mv.dest, 0);
    let at = mv.dest.number();
    if safety[at] is Some && safety[at]->0.src == mv.src {
        let m = choose|m: Move| #[trigger] came_from(rules, b, safety[at]->0, at, m);
        square_numbers_are_exact(m.dest, 0);
        assert(legal(rules, b, m) && legal(rules, b, mv));
    }
}

/// Whatever moves a node searches, what it remembers stays well remembered.
pub proof fn searching_moves_remembers_well<R: Rules, B: Backend>(
    rules: &R,
    p: PositionModel,
    w: World<B::State>,
    tally: Tally,
    node: NodeType,
    beta: int,
    depth: int,
    ply: int,
    improving: bool,
)
    requires
        depth > 0,
        0 <= tally.picker.cursor,
        all_legal(rules, p.board(), tally.list),
        well_remembered(rules, p.board(), tally.duck_safety),
    ensures
        well_remembered(
            rules,
            p.board(),
            moves_searched::<R, B>(
                rules,
                p,
                w,
                tally,
                node,
                beta,
                depth,
                ply,
                improving,
            ).tally.duck_safety,
        ),
    decreases tally.picker.stage.ahead(), tally.list.len() - tally.picker.cursor,
{
    reveal(moves_searched);
    reveal(move_searched);
    turns_run_out::<R, B>(rules, w.s, p, tally.picker, tally.list);
    picks_are_legal_and_run_out::<R, B>(rules, w.s, p, tally.picker, tally.list);
    let turn = tally.picker.pick::<R, B>(rules, w.s, p, tally.list);
    let next = tally.after_turn(turn);
    if turn.mv is Some {
        let mv = turn.mv->0;
        let known = next.with_safety(rules, p.board(), mv);
        legal_moves_are_well_remembered(rules, p.board(), next.duck_safety, mv);
        if next.refutes(mv) {
            searching_moves_remembers_well::<R, B>(
                rules,
                p,
                w,
                next,
                node,
                beta,
                depth,
                ply,
                improving,
            );
        } else if known.late::<B>(mv, depth, improving) || known.crowded::<B>(
            mv,
            node,
            depth,
            improving,
        ) {
            searching_moves_remembers_well::<R, B>(
                rules,
                p,
                w,
                known,
                node,
                beta,
                depth,
                ply,
                improving,
            );
        } else {
            reveal(weighed);
            let counted = known.counting(mv);
            let found = move_searched::<R, B>(rules, p, w, counted, node, beta, depth, ply, mv);
            let step = weighed::<B>(p, counted, found, node, beta, depth, ply, mv);
            if step is On {
                searching_moves_remembers_well::<R, B>(
                    rules,
                    p,
                    step->On_1,
                    step->On_0,
                    node,
                    beta,
                    depth,
                    ply,
                    improving,
                );
            }
        }
    }
}

/// Whether a move lets the king be captured at once, and does not draw the game.
pub open spec fn exposes_the_king<R: Rules>(rules: &R, p: PositionModel, mv: Move) -> bool {
    let after = p.after_move(rules, mv);
    !saving_after(rules, p.board(), mv).contains(mv.duck) && after.board().hmc < 100
        && !rules.repeated(after)
}

/// Where the saving squares depend on the way of the piece alone, a node scores a
/// move as lost without a search exactly if it lets the king be captured at once
/// and does not draw the game, whatever the node has come across before.
pub proof fn exposing_the_king_loses<R: Rules, B: Backend>(
    rules: &R,
    p: PositionModel,
    w: World<B::State>,
    tally: Tally,
    node: NodeType,
    beta: int,
    depth: int,
    ply: int,
    mv: Move,
)
    requires
        depth > 0,
        well_remembered(rules, p.board(), tally.duck_safety),
        decided_by_the_way(rules, p.board()),
        legal(rules, p.board(), mv),
    ensures
        ({
            let counted = tally.with_safety(rules, p.board(), mv).counting(mv);
            let o = move_searched::<R, B>(rules, p, w, counted, node, beta, depth, ply, mv);
            &&& lost_at_once(
                rules,
                p.after_move(rules, mv),
                counted.safe(mv).contains(mv.duck),
            ) <==> exposes_the_king(rules, p, mv)
            &&& exposes_the_king(rules, p, mv) ==> o.score == mated_in(ply + 2) && o.w.s == w.s
        }),
{
    reveal(move_searched);
    the_remembered_squares_are_those_of_the_move(rules, p.board(), tally.duck_safety, mv);
}

/// The same holds of a quiescence node.
pub proof fn exposing_the_king_loses_quietly<R: Rules, B: Backend>(
    rules: &R,
    p: PositionModel,
    w: World<B::State>,
    tally: QuietTally,
    node: NodeType,
    beta: int,
    ply: int,
    mv: Move,
)
    requires
        ply < MAX_PLY,
        well_remembered(rules, p.board(), tally.duck_safety),
        decided_by_the_way(rules, p.board()),
        legal(rules, p.board(), mv),
    ensures
        ({
            let counted = tally.with_safety(rules, p.board(), mv).counting(mv);
            let o = noisy_searched::<R, B>(rules, p, w, counted, node, beta, ply, mv);
            &&& lost_at_once(
                rules,
                p.after_move(rules, mv),
                counted.safe(mv).contains(mv.duck),
            ) <==> exposes_the_king(rules, p, mv)
            &&& exposes_the_king(rules, p, mv) ==> o.score == mated_in(ply + 2) && o.w.s == w.s
        }),
{
    reveal(noisy_searched);
    the_remembered_squares_are_those_of_the_move(rules, p.board(), tally.duck_safety, mv);
}

} // verus!
