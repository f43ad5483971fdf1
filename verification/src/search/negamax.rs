//! A quiescence search that passes nothing over finds what a side can reach by noisy
//! moves against every reply.

use crate::board::board::BoardModel;
use crate::common::moves::Move;
use crate::common::types::{square_numbers_are_exact, Square};
use crate::position::PositionModel;
use crate::rules::{MoveFilter, Rules};
use crate::score::{INFINITE, MATE, MATE_BOUND};
use crate::search::backend::Backend;
use crate::search::frames::lemma_noisy_keeps;
use crate::search::model::{
    after_must_stop, entered, fresh_quiet_tally, noisies_searched, noisy_searched, quiesced, raised,
    route, static_eval_of, NodeType, QuietTally, World,
};
use crate::search::move_picker::{ranked_moves, PickerModel, Stage};
use crate::search::move_stack::ScoredMove;
use crate::search::picking::{lemma_ranked_members, lemma_ranked_moves_distinct};
use crate::search::MAX_PLY;
use vstd::prelude::*;

verus! {

// The value of a game.

/// The score of a game that is over, as seen by the side to move.
pub open spec fn final_score<R: Rules>(
    rules: &R,
    p: PositionModel,
    at_root: bool,
    ply: int,
) -> Option<int> {
    if p.board().king_square(p.board().stm) is None {
        Some(ply - MATE)
    } else if p.board().hmc >= 100 || !at_root && rules.repeated(p) {
        Some(0)
    } else {
        None
    }
}

/// Whether a move lets the mover's king be captured at once, and the game goes on.
pub open spec fn gives_the_king_away<R: Rules>(rules: &R, p: PositionModel, mv: Move) -> bool {
    let b = rules.played(p.board(), mv);
    &&& !b.saving_squares(b.stm.opponent()).contains(mv.duck)
    &&& b.hmc < 100
    &&& !rules.repeated(p.after_move(rules, mv))
}

/// What a side reaches by noisy moves alone if it may stop at any time and take the
/// evaluation: the best of the evaluation and of what each noisy move leaves.
pub open spec fn quiet_value<R: Rules>(
    rules: &R,
    e: spec_fn(BoardModel) -> int,
    p: PositionModel,
    ply: int,
) -> int
    decreases
            if ply < MAX_PLY {
                MAX_PLY - ply
            } else {
                0
            },
            2nat,
            0nat,
{
    if ply >= MAX_PLY {
        e(p.board())
    } else if final_score(rules, p, false, ply) is Some {
        final_score(rules, p, false, ply)->0
    } else {
        quiet_best(rules, e, p, ply, rules.moves(p.board(), MoveFilter::Noisy))
    }
}

/// The best of the evaluation and of what the given moves leave.
pub open spec fn quiet_best<R: Rules>(
    rules: &R,
    e: spec_fn(BoardModel) -> int,
    p: PositionModel,
    ply: int,
    moves: Seq<Move>,
) -> int
    decreases
            if ply < MAX_PLY {
                MAX_PLY - ply
            } else {
                0
            },
            1nat,
            moves.len(),
    when ply < MAX_PLY
{
    if moves.len() == 0 {
        e(p.board())
    } else {
        let rest = quiet_best(rules, e, p, ply, moves.drop_last());
        let last = quiet_worth(rules, e, p, ply, moves.last());
        if last > rest {
            last
        } else {
            rest
        }
    }
}

/// What a noisy move leaves.
pub open spec fn quiet_worth<R: Rules>(
    rules: &R,
    e: spec_fn(BoardModel) -> int,
    p: PositionModel,
    ply: int,
    mv: Move,
) -> int
    decreases
            if ply < MAX_PLY {
                MAX_PLY - ply
            } else {
                0
            },
            0nat,
            0nat,
    when ply < MAX_PLY
{
    if gives_the_king_away(rules, p, mv) {
        ply + 2 - MATE
    } else {
        -quiet_value(rules, e, p.after_move(rules, mv), ply + 1)
    }
}

/// Whether a line of noisy moves reaches the value: each of its moves is as good as
/// any, and where it ends nothing is better than the evaluation, or the game is over.
pub open spec fn quiet_line<R: Rules>(
    rules: &R,
    e: spec_fn(BoardModel) -> int,
    p: PositionModel,
    ply: int,
    line: Seq<Move>,
) -> bool
    decreases line.len(),
{
    if ply >= MAX_PLY || final_score(rules, p, false, ply) is Some {
        line.len() == 0
    } else if line.len() == 0 {
        quiet_value(rules, e, p, ply) == e(p.board())
    } else {
        &&& rules.moves(p.board(), MoveFilter::Noisy).contains(line[0])
        &&& quiet_value(rules, e, p, ply) == quiet_worth(rules, e, p, ply, line[0])
        &&& if gives_the_king_away(rules, p, line[0]) {
            line.len() == 1
        } else {
            quiet_line(rules, e, p.after_move(rules, line[0]), ply + 1, line.drop_first())
        }
    }
}

/// What a score says of a value, given the window it was searched with: within the
/// window it is the value, at or below it is an upper bound, at or above a lower one.
pub open spec fn tells(score: int, alpha: int, beta: int, value: int) -> bool {
    &&& score <= alpha ==> value <= score
    &&& alpha < score < beta ==> value == score
    &&& score >= beta ==> value >= score
}

proof fn lemma_quiet_best<R: Rules>(
    rules: &R,
    e: spec_fn(BoardModel) -> int,
    p: PositionModel,
    ply: int,
    moves: Seq<Move>,
)
    requires
        ply < MAX_PLY,
    ensures
        ({
            let v = quiet_best(rules, e, p, ply, moves);
            &&& v >= e(p.board())
            &&& forall|i: int|
                0 <= i < moves.len() ==> v >= quiet_worth(rules, e, p, ply, #[trigger] moves[i])
            &&& v == e(p.board()) || exists|i: int|
                0 <= i < moves.len() && v == quiet_worth(rules, e, p, ply, #[trigger] moves[i])
        }),
    decreases moves.len(),
{
    if moves.len() > 0 {
        let shorter = moves.drop_last();
        lemma_quiet_best(rules, e, p, ply, shorter);
        let rest = quiet_best(rules, e, p, ply, shorter);
        let last = quiet_worth(rules, e, p, ply, moves.last());
        let v = quiet_best(rules, e, p, ply, moves);
        assert(v == if last > rest {
            last
        } else {
            rest
        });
        assert forall|i: int| 0 <= i < moves.len() implies v >= quiet_worth(
            rules,
            e,
            p,
            ply,
            #[trigger] moves[i],
        ) by {
            if i < shorter.len() {
                assert(shorter[i] == moves[i]);
            }
        }
        if v == rest && rest != e(p.board()) {
            let i = choose|i: int|
                0 <= i < shorter.len() && rest == quiet_worth(
                    rules,
                    e,
                    p,
                    ply,
                    #[trigger] shorter[i],
                );
            assert(moves[i] == shorter[i]);
        } else if v == last {
            assert(moves[moves.len() - 1] == moves.last());
        }
    }
}

/// Whether evaluations announce no forced win or loss.
pub open spec fn tame(e: spec_fn(BoardModel) -> int) -> bool {
    forall|b: BoardModel| -MATE_BOUND <= #[trigger] e(b) <= MATE_BOUND
}

/// Values lie between a loss and a win at once.
pub proof fn quiet_values_are_bounded<R: Rules>(
    rules: &R,
    e: spec_fn(BoardModel) -> int,
    p: PositionModel,
    ply: int,
)
    requires
        tame(e),
        0 <= ply,
    ensures
        -MATE <= quiet_value(rules, e, p, ply) <= MATE,
    decreases
            if ply < MAX_PLY {
                MAX_PLY - ply
            } else {
                0
            },
{
    if ply < MAX_PLY && final_score(rules, p, false, ply) is None {
        let moves = rules.moves(p.board(), MoveFilter::Noisy);
        lemma_quiet_best(rules, e, p, ply, moves);
        assert forall|i: int| 0 <= i < moves.len() implies -MATE <= quiet_worth(
            rules,
            e,
            p,
            ply,
            #[trigger] moves[i],
        ) <= MATE by {
            quiet_values_are_bounded(rules, e, p.after_move(rules, moves[i]), ply + 1);
        }
    }
}

// The quiescence search.

/// The evaluation with its correction, kept from announcing a forced win or loss.
pub open spec fn kept_tame(x: int) -> int {
    if x > MATE_BOUND {
        MATE_BOUND as int
    } else if x < -MATE_BOUND {
        -MATE_BOUND as int
    } else {
        x
    }
}

/// Whether the surroundings answer the same all along a quiescence search: the
/// table knows nothing, and the corrected evaluation is `e`.
pub open spec fn steady<B: Backend>(
    calm: spec_fn(B::State) -> bool,
    e: spec_fn(BoardModel) -> int,
) -> bool {
    &&& forall|s: B::State| calm(s) ==> calm(#[trigger] B::after_node(s))
    &&& forall|s: B::State| calm(s) ==> calm(#[trigger] B::after_stopping(s))
    &&& forall|s: B::State, key: u64| calm(s) ==> calm(#[trigger] B::after_probe(s, key))
    &&& forall|s: B::State, key: u64| calm(s) ==> (#[trigger] B::entry(s, key)) is None
    &&& forall|s: B::State, b: BoardModel|
        calm(s) ==> kept_tame(#[trigger] B::eval_of(s, b) + B::corr_of(s, b)) == e(b)
}

/// Whether a quiescence search has no occasion to pass over a move: noisy moves have
/// destinations of their own, and the limits on duck squares are not reached.
pub open spec fn nothing_to_skip<R: Rules, B: Backend>(rules: &R, node: NodeType) -> bool {
    &&& B::qsldp_limit() > 0
    &&& forall|b: BoardModel, i: int, j: int|
        0 <= i < j < rules.moves(b, MoveFilter::Noisy).len() ==> (#[trigger] rules.moves(
            b,
            MoveFilter::Noisy,
        )[i]).dest != (#[trigger] rules.moves(b, MoveFilter::Noisy)[j]).dest
    &&& node is NonPV ==> forall|b: BoardModel| #[trigger]
        rules.moves(b, MoveFilter::Noisy).len() <= B::qsdcp_limit()
}

/// The moves of a list, each once and each with its own destination.
spec fn lists_the_noisies<R: Rules>(rules: &R, b: BoardModel, list: Seq<ScoredMove>) -> bool {
    &&& forall|i: int|
        0 <= i < list.len() ==> rules.moves(b, MoveFilter::Noisy).contains(
            (#[trigger] list[i]).0,
        )
    &&& forall|mv: Move| #[trigger]
        rules.moves(b, MoveFilter::Noisy).contains(mv) ==> exists|i: int|
            0 <= i < list.len() && (#[trigger] list[i]).0 == mv
    &&& forall|i: int, j: int|
        0 <= i < j < list.len() ==> (#[trigger] list[i]).0.dest != (#[trigger] list[j]).0.dest
    &&& list.len() <= rules.moves(b, MoveFilter::Noisy).len()
}

/// Nothing is noted yet about the moves from `cursor` on.
spec fn untouched(tally: QuietTally) -> bool {
    &&& tally.ducks_by_move.len() == 4096
    &&& tally.duck_counts.len() == 64
    &&& tally.duck_refutations.len() == 64
    &&& tally.duck_safety.len() == 64
    &&& forall|i: int|
        tally.picker.cursor <= i < tally.list.len() ==> {
            let mv = (#[trigger] tally.list[i]).0;
            &&& tally.ducks_by_move[route(mv)] == 0
            &&& tally.duck_refutations[mv.dest.number()] == Set::<Square>::empty()
            &&& tally.duck_safety[mv.dest.number()] is None
        }
    &&& forall|d: int|
        0 <= d < 64 ==> (#[trigger] tally.duck_counts[d]) <= tally.picker.cursor
}

/// Whether a line starts with a noisy move of the given worth and goes on as well.
spec fn worthy_line<R: Rules>(
    rules: &R,
    e: spec_fn(BoardModel) -> int,
    p: PositionModel,
    ply: int,
    line: Seq<Move>,
    score: int,
) -> bool {
    &&& line.len() > 0
    &&& rules.moves(p.board(), MoveFilter::Noisy).contains(line[0])
    &&& quiet_worth(rules, e, p, ply, line[0]) == score
    &&& if gives_the_king_away(rules, p, line[0]) {
        line.len() == 1
    } else {
        quiet_line(rules, e, p.after_move(rules, line[0]), ply + 1, line.drop_first())
    }
}

/// What a quiescence node knows when it has been through part of its list.
spec fn on_the_way<R: Rules>(
    rules: &R,
    e: spec_fn(BoardModel) -> int,
    p: PositionModel,
    tally: QuietTally,
    node: NodeType,
    line: Seq<Move>,
    alpha: int,
    beta: int,
    ply: int,
) -> bool {
    let stand = e(p.board());
    let bar = if stand > alpha {
        stand
    } else {
        alpha
    };
    &&& tally.best_score >= stand
    &&& tally.alpha == if tally.best_score > bar {
        tally.best_score
    } else {
        bar
    }
    &&& tally.alpha < beta
    &&& forall|i: int|
        0 <= i < tally.picker.cursor ==> quiet_worth(rules, e, p, ply, (#[trigger] tally.list[i]).0)
            <= tally.best_score
    &&& tally.best_score > alpha ==> tally.best_score == stand || exists|i: int|
        0 <= i < tally.picker.cursor && quiet_worth(
            rules,
            e,
            p,
            ply,
            (#[trigger] tally.list[i]).0,
        ) == tally.best_score
    &&& node.pv() ==> if tally.best_score > bar {
        worthy_line(rules, e, p, ply, line, tally.best_score)
    } else {
        line.len() == 0
    }
}

/// What a finished quiescence search tells, unless it was stopped.
pub open spec fn told_quietly<R: Rules, B: Backend>(
    rules: &R,
    calm: spec_fn(B::State) -> bool,
    e: spec_fn(BoardModel) -> int,
    p: PositionModel,
    score: int,
    w: World<B::State>,
    node: NodeType,
    alpha: int,
    beta: int,
    ply: int,
) -> bool {
    &&& calm(w.s)
    &&& w.t.stack[MAX_PLY as int].pv.len() == 0
    &&& tells(score, alpha, beta, quiet_value(rules, e, p, ply))
    &&& node.pv() && alpha < score < beta ==> quiet_line(rules, e, p, ply, w.t.stack[ply].pv)
}

proof fn lemma_quiet_loop<R: Rules, B: Backend>(
    rules: &R,
    calm: spec_fn(B::State) -> bool,
    e: spec_fn(BoardModel) -> int,
    p: PositionModel,
    w: World<B::State>,
    tally: QuietTally,
    node: NodeType,
    alpha: int,
    beta: int,
    ply: int,
)
    requires
        0 <= ply < MAX_PLY,
        w.t.stack.len() == MAX_PLY + 1,
        w.t.stack[MAX_PLY as int].pv.len() == 0,
        calm(w.s),
        steady::<B>(calm, e),
        tame(e),
        nothing_to_skip::<R, B>(rules, node),
        -INFINITE <= alpha < beta <= INFINITE,
        final_score(rules, p, false, ply) is None,
        lists_the_noisies(rules, p.board(), tally.list),
        tally.picker.stage is YieldNoisies,
        tally.picker.skip_quiets,
        tally.picker.tt_move is None,
        0 <= tally.picker.cursor <= tally.list.len(),
        untouched(tally),
        on_the_way(rules, e, p, tally, node, w.t.stack[ply].pv, alpha, beta, ply),
    ensures
        ({
            let r = noisies_searched::<R, B>(rules, p, w, tally, node, beta, ply);
            r.1.t.stop || r.0 is Some && told_quietly::<R, B>(
                rules,
                calm,
                e,
                p,
                r.0->0,
                r.1,
                node,
                alpha,
                beta,
                ply,
            )
        }),
    decreases MAX_PLY - ply, 1nat, tally.list.len() - tally.picker.cursor,
{
    reveal(noisies_searched);
    reveal(noisy_searched);
    let b = p.board();
    let list = tally.list;
    let c = tally.picker.cursor;
    let moves = rules.moves(b, MoveFilter::Noisy);
    let turn = tally.picker.pick::<R, B>(rules, w.s, p, list);
    let next = tally.after_turn(turn);
    lemma_quiet_best(rules, e, p, ply, moves);
    assert(turn.list == list && (c < list.len() ==> turn.mv == Some(list[c].0)
        && turn.picker == (PickerModel { cursor: c + 1, ..tally.picker })) && (c >= list.len()
        ==> turn.mv is None)) by {
        reveal(PickerModel::pick);
    }
    if c >= list.len() {
        assert forall|i: int| 0 <= i < moves.len() implies quiet_worth(
            rules,
            e,
            p,
            ply,
            #[trigger] moves[i],
        ) <= tally.best_score by {
            assert(moves.contains(moves[i]));
            let k = choose|k: int| 0 <= k < list.len() && (#[trigger] list[k]).0 == moves[i];
            assert(quiet_worth(rules, e, p, ply, list[k].0) <= tally.best_score);
        }
        if tally.best_score > alpha && tally.best_score != e(b) {
            let k = choose|k: int|
                0 <= k < c && quiet_worth(rules, e, p, ply, (#[trigger] list[k]).0)
                    == tally.best_score;
            assert(moves.contains(list[k].0));
            let i = choose|i: int| 0 <= i < moves.len() && moves[i] == list[k].0;
            assert(quiet_worth(rules, e, p, ply, moves[i]) == tally.best_score);
        }
    } else {
        let mv = list[c].0;
        square_numbers_are_exact(mv.src, 0);
        square_numbers_are_exact(mv.dest, 0);
        square_numbers_are_exact(mv.duck, 0);
        let known = next.with_safety(rules, b, mv);
        let after = rules.played(b, mv);
        let saving = after.saving_squares(after.stm.opponent());
        assert(known.safe(mv) == saving);
        assert(!next.refutes(mv));
        assert(!known.late::<B>(mv));
        assert(!known.crowded::<B>(mv, node));
        let counted = known.counting(mv);
        let found = noisy_searched::<R, B>(rules, p, w, counted, node, beta, ply, mv);
        lemma_noisy_keeps::<R, B>(rules, p, w, counted, node, beta, ply, mv);
        let worth = quiet_worth(rules, e, p, ply, mv);
        let child = p.after_move(rules, mv);
        assert(child.board() == after);
        assert(counted.safe(mv) == saving);
        if !gives_the_king_away(rules, p, mv) {
            lemma_quiet::<R, B>(
                rules,
                calm,
                e,
                child,
                w,
                node,
                -beta,
                -counted.alpha,
                ply + 1,
            );
            let o = quiesced::<R, B>(rules, child, w, node, -beta, -counted.alpha, ply + 1);
            reveal(quiesced);
            assert(found.score == -o.score && found.w == o.w);
        }
        if !found.w.t.stop {
            assert(found.w.t.stack[ply] == w.t.stack[ply]);
            assert(tells(found.score, tally.alpha, beta, worth));
            let scored = counted.with_reply(mv, found.w.t.stack[ply + 1].mv).with_score(
                found.score,
            );
            let w2 = if found.score > counted.alpha {
                found.w.with_thread(raised(found.w.t, mv, node, ply))
            } else {
                found.w
            };
            let tail = found.w.t.stack[ply + 1].pv;
            if found.score > counted.alpha && node.pv() {
                let line = seq![mv] + tail;
                assert(w2.t.stack[ply].pv == line);
                assert(line.drop_first() =~= tail);
                if found.score < beta {
                    assert(worthy_line(rules, e, p, ply, line, found.score));
                }
            }
            if found.score > counted.alpha && found.score >= beta {
                assert(moves.contains(mv));
                let i = choose|i: int| 0 <= i < moves.len() && moves[i] == mv;
                assert(quiet_worth(rules, e, p, ply, moves[i]) == worth);
            } else {
                assert(list[c].0 == mv);
                assert forall|i: int| 0 <= i < c + 1 implies quiet_worth(
                    rules,
                    e,
                    p,
                    ply,
                    (#[trigger] scored.list[i]).0,
                ) <= scored.best_score by {
                    if i < c {
                        assert(quiet_worth(rules, e, p, ply, tally.list[i].0)
                            <= tally.best_score);
                    }
                }
                if scored.best_score > alpha && scored.best_score != e(b) {
                    if found.score > tally.best_score {
                        assert(quiet_worth(rules, e, p, ply, scored.list[c].0)
                            == scored.best_score);
                    } else {
                        let k = choose|k: int|
                            0 <= k < c && quiet_worth(rules, e, p, ply, (#[trigger] list[k]).0)
                                == tally.best_score;
                        assert(quiet_worth(rules, e, p, ply, scored.list[k].0)
                            == scored.best_score);
                    }
                }
                assert(untouched(scored)) by {
                    assert forall|i: int| c + 1 <= i < list.len() implies {
                        let m = (#[trigger] scored.list[i]).0;
                        &&& scored.ducks_by_move[route(m)] == 0
                        &&& scored.duck_refutations[m.dest.number()] == Set::<Square>::empty()
                        &&& scored.duck_safety[m.dest.number()] is None
                    } by {
                        let m = list[i].0;
                        assert(list[c].0.dest != m.dest);
                        square_numbers_are_exact(m.src, 0);
                        square_numbers_are_exact(m.dest, 0);
                        assert(m.dest.number() != mv.dest.number());
                        assert(route(m) != route(mv));
                    }
                    assert forall|d: int| 0 <= d < 64 implies (#[trigger] scored.duck_counts[d])
                        <= c + 1 by {
                        assert(tally.duck_counts[d] <= c);
                    }
                }
                assert(w2.t.stack[MAX_PLY as int].pv.len() == 0);
                lemma_quiet_loop::<R, B>(
                    rules,
                    calm,
                    e,
                    p,
                    w2,
                    scored,
                    node,
                    alpha,
                    beta,
                    ply,
                );
            }
        }
    }
}

proof fn lemma_noisies_listed<R: Rules, B: Backend>(
    rules: &R,
    s: B::State,
    p: PositionModel,
    node: NodeType,
)
    requires
        nothing_to_skip::<R, B>(rules, node),
    ensures
        lists_the_noisies(
            rules,
            p.board(),
            ranked_moves::<R, B>(MoveFilter::Noisy, rules, s, p, None),
        ),
{
    let b = p.board();
    let moves = rules.moves(b, MoveFilter::Noisy);
    let list = ranked_moves::<R, B>(MoveFilter::Noisy, rules, s, p, None);
    assert(moves.no_duplicates()) by {
        assert forall|i: int, j: int|
            0 <= i < moves.len() && 0 <= j < moves.len() && i != j implies moves[i] != moves[j] by {
            if i < j {
                assert(moves[i].dest != moves[j].dest);
            } else {
                assert(moves[j].dest != moves[i].dest);
            }
        }
    }
    lemma_ranked_moves_distinct::<R, B>(MoveFilter::Noisy, rules, s, p, None);
    crate::search::move_picker::ranked_moves_are_legal::<R, B>(
        MoveFilter::Noisy,
        rules,
        s,
        p,
        None,
    );
    assert forall|mv: Move| #[trigger] moves.contains(mv) implies exists|i: int|
        0 <= i < list.len() && (#[trigger] list[i]).0 == mv by {
        lemma_ranked_members::<R, B>(MoveFilter::Noisy, rules, s, p, None, mv);
    }
    assert forall|i: int| 0 <= i < list.len() implies moves.contains((#[trigger] list[i]).0) by {
        lemma_ranked_members::<R, B>(MoveFilter::Noisy, rules, s, p, None, list[i].0);
    }
    assert forall|i: int, j: int| 0 <= i < j < list.len() implies (#[trigger] list[i]).0.dest != (
    #[trigger] list[j]).0.dest by {
        assert(list[i].0 != list[j].0);
        assert(moves.contains(list[i].0) && moves.contains(list[j].0));
        let x = choose|x: int| 0 <= x < moves.len() && moves[x] == list[i].0;
        let y = choose|y: int| 0 <= y < moves.len() && moves[y] == list[j].0;
        if x < y {
            assert(moves[x].dest != moves[y].dest);
        } else {
            assert(moves[y].dest != moves[x].dest);
        }
    }
}

pub proof fn lemma_quiet<R: Rules, B: Backend>(
    rules: &R,
    calm: spec_fn(B::State) -> bool,
    e: spec_fn(BoardModel) -> int,
    p: PositionModel,
    w: World<B::State>,
    node: NodeType,
    alpha: int,
    beta: int,
    ply: int,
)
    requires
        0 <= ply <= MAX_PLY,
        w.t.stack.len() == MAX_PLY + 1,
        w.t.stack[MAX_PLY as int].pv.len() == 0,
        calm(w.s),
        steady::<B>(calm, e),
        tame(e),
        nothing_to_skip::<R, B>(rules, node),
        -INFINITE <= alpha < beta <= INFINITE,
    ensures
        ({
            let o = quiesced::<R, B>(rules, p, w, node, alpha, beta, ply);
            o.w.t.stop || told_quietly::<R, B>(
                rules,
                calm,
                e,
                p,
                o.score,
                o.w,
                node,
                alpha,
                beta,
                ply,
            )
        }),
    decreases MAX_PLY - ply, 2nat, 0int,
{
    reveal(quiesced);
    reveal(noisies_searched);
    let b = p.board();
    let w0 = w.with_state(B::after_node(w.s));
    let w1 = after_must_stop::<B>(w0);
    assert(calm(w0.s));
    assert(calm(w1.s));
    assert(kept_tame(B::eval_of(w1.s, b) + B::corr_of(w1.s, b)) == e(b));
    assert(static_eval_of::<B>(w1.s, b) == e(b));
    if ply < MAX_PLY {
        let s2 = B::after_probe(w1.s, b.hash);
        assert(B::entry(w1.s, b.hash) is None);
        assert(calm(s2));
        assert(kept_tame(B::eval_of(s2, b) + B::corr_of(s2, b)) == e(b));
        let w2 = w1.with_thread(entered(w1.t, node, ply)).with_state(s2);
        let w3 = w2.with_thread(w2.t.with_evals(ply, B::eval_of(s2, b), e(b)));
        let moves = rules.moves(b, MoveFilter::Noisy);
        lemma_quiet_best(rules, e, p, ply, moves);
        let bar = if e(b) > alpha {
            e(b)
        } else {
            alpha
        };
        if final_score(rules, p, false, ply) is None && e(b) < beta {
            let fresh = fresh_quiet_tally(None, bar, e(b));
            let list = ranked_moves::<R, B>(MoveFilter::Noisy, rules, s2, p, None);
            let listed = QuietTally {
                picker: fresh.picker.at(Stage::YieldNoisies),
                list,
                ..fresh
            };
            assert(fresh.picker.pick::<R, B>(rules, s2, p, fresh.list) == listed.picker.pick::<
                R,
                B,
            >(rules, s2, p, list)) by {
                reveal(PickerModel::pick);
                assert(fresh.list + list =~= list);
            }
            assert(noisies_searched::<R, B>(rules, p, w3, fresh, node, beta, ply)
                == noisies_searched::<R, B>(rules, p, w3, listed, node, beta, ply));
            lemma_noisies_listed::<R, B>(rules, s2, p, node);
            assert(untouched(listed)) by {
                assert forall|i: int| 0 <= i < list.len() implies {
                    let m = (#[trigger] listed.list[i]).0;
                    &&& listed.ducks_by_move[route(m)] == 0
                    &&& listed.duck_refutations[m.dest.number()] == Set::<Square>::empty()
                    &&& listed.duck_safety[m.dest.number()] is None
                } by {
                    square_numbers_are_exact(list[i].0.src, 0);
                    square_numbers_are_exact(list[i].0.dest, 0);
                }
            }
            lemma_quiet_loop::<R, B>(rules, calm, e, p, w3, listed, node, alpha, beta, ply);
        }
    }
}

/// With no table entry and no duck square passed over, a quiescence search that is
/// not stopped finds the value of the position by noisy moves: exactly if it lies
/// within the window, else as a bound. On the principal variation the line it leaves
/// then reaches that value.
pub proof fn a_quiescence_search_finds_the_quiet_value<R: Rules, B: Backend>(
    rules: &R,
    calm: spec_fn(B::State) -> bool,
    e: spec_fn(BoardModel) -> int,
    p: PositionModel,
    w: World<B::State>,
    node: NodeType,
    alpha: int,
    beta: int,
    ply: int,
)
    requires
        0 <= ply <= MAX_PLY,
        w.t.stack.len() == MAX_PLY + 1,
        w.t.stack[MAX_PLY as int].pv.len() == 0,
        calm(w.s),
        steady::<B>(calm, e),
        nothing_to_skip::<R, B>(rules, node),
        -INFINITE <= alpha < beta <= INFINITE,
        tame(e),
    ensures
        ({
            let o = quiesced::<R, B>(rules, p, w, node, alpha, beta, ply);
            let v = quiet_value(rules, e, p, ply);
            o.w.t.stop || {
                &&& o.score <= alpha ==> v <= o.score
                &&& alpha < o.score < beta ==> v == o.score
                &&& o.score >= beta ==> v >= o.score
                &&& node.pv() && alpha < o.score < beta ==> quiet_line(
                    rules,
                    e,
                    p,
                    ply,
                    o.w.t.stack[ply].pv,
                )
                &&& alpha == -INFINITE && beta == INFINITE ==> o.score == v
            }
        }),
{
    lemma_quiet::<R, B>(rules, calm, e, p, w, node, alpha, beta, ply);
    quiet_values_are_bounded(rules, e, p, ply);
}

} // verus!
