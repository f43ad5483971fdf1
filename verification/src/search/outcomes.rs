//! What holds of every outcome of a search.

use crate::common::moves::Move;
use crate::position::PositionModel;
use crate::rules::{has_moves, Rules};
use crate::score::mate_in;
use crate::search::backend::{Backend, TTFlag};
use crate::search::model::{
    after_must_stop, all_searched, concluded, entered, fresh_quiet_tally, fresh_tally, game_over,
    move_searched, moves_searched, must_stop, noisies_searched, noisy_searched, quiesced, raised,
    searched, static_eval_of, stopped, turns_run_out, weighed, NodeType, QuietTally, Tally, World,
};
use crate::search::move_picker::PickerModel;
use crate::search::picking::{every_legal_move_is_handed_out, handed_out};
use crate::search::MAX_PLY;
use vstd::prelude::*;

verus! {

/// Below the root a search that has to stop does so at once: it scores nothing,
/// and it tells every thread.
pub proof fn a_search_stops_at_once<R: Rules, B: Backend>(
    rules: &R,
    p: PositionModel,
    w: World<B::State>,
    node: NodeType,
    alpha: int,
    beta: int,
    depth: int,
    ply: int,
)
    requires
        !(node is Root),
        must_stop::<B>(w),
    ensures
        ({
            let o = searched::<R, B>(rules, p, w, node, alpha, beta, depth, ply);
            &&& o == stopped::<B>(after_must_stop::<B>(w))
            &&& o.score == 0
            &&& o.w.t == w.t.stopped()
        }),
{
    reveal(searched);
}

/// A quiescence search that has to stop does so at once.
pub proof fn a_quiescence_search_stops_at_once<R: Rules, B: Backend>(
    rules: &R,
    p: PositionModel,
    w: World<B::State>,
    node: NodeType,
    alpha: int,
    beta: int,
    ply: int,
)
    requires
        must_stop::<B>(w.with_state(B::after_node(w.s))),
    ensures
        ({
            let o = quiesced::<R, B>(rules, p, w, node, alpha, beta, ply);
            o.score == 0 && o.w.t == w.t.stopped()
        }),
{
    reveal(quiesced);
}

/// A game that is over gets its score from the rules alone, whatever the table,
/// the evaluation or the depth say.
pub proof fn a_finished_game_is_not_searched<R: Rules, B: Backend>(
    rules: &R,
    p: PositionModel,
    w: World<B::State>,
    node: NodeType,
    alpha: int,
    beta: int,
    depth: int,
    ply: int,
)
    requires
        ply < MAX_PLY,
        node is Root ==> depth > 0,
        game_over(rules, p, node, ply) is Some,
    ensures
        ({
            let o = searched::<R, B>(rules, p, w, node, alpha, beta, depth, ply);
            o.score == game_over(rules, p, node, ply)->0 || o.score == 0 && o.w.t.stop
        }),
{
    reveal(searched);
    reveal(quiesced);
}

/// What a node knows fits its window: without a move above alpha the score is an
/// upper bound, at most alpha; with one, the score is the new alpha; from beta on
/// it is a lower bound.
pub open spec fn fits(tally: Tally, alpha: int, beta: int) -> bool {
    match tally.flag {
        TTFlag::Upper => {
            &&& tally.best_move is None
            &&& tally.alpha == alpha
            &&& tally.best_score matches Some(score) ==> score <= alpha
        },
        TTFlag::Exact => {
            &&& tally.best_move is Some
            &&& tally.best_score == Some(tally.alpha)
            &&& alpha < tally.alpha < beta
        },
        TTFlag::Lower => {
            &&& tally.best_move is Some
            &&& tally.best_score == Some(tally.alpha)
            &&& alpha < tally.alpha && beta <= tally.alpha
        },
    }
}

proof fn lemma_moves_fit<R: Rules, B: Backend>(
    rules: &R,
    p: PositionModel,
    w: World<B::State>,
    tally: Tally,
    node: NodeType,
    alpha: int,
    beta: int,
    depth: int,
    ply: int,
    improving: bool,
)
    requires
        depth > 0,
        fits(tally, alpha, beta),
        !(tally.flag is Lower),
    ensures
        fits(
            moves_searched::<R, B>(rules, p, w, tally, node, beta, depth, ply, improving).tally,
            alpha,
            beta,
        ),
    decreases tally.picker.stage.ahead(), tally.list.len() - tally.picker.cursor,
{
    reveal(moves_searched);
    reveal(move_searched);
    turns_run_out::<R, B>(rules, w.s, p, tally.picker, tally.list);
    let turn = tally.picker.pick::<R, B>(rules, w.s, p, tally.list);
    let next = tally.after_turn(turn);
    if turn.mv is Some {
        let mv = turn.mv->0;
        let known = next.with_safety(rules, p.board(), mv);
        if next.refutes(mv) {
            lemma_moves_fit::<R, B>(rules, p, w, next, node, alpha, beta, depth, ply, improving);
        } else if known.late::<B>(mv, depth, improving) || known.crowded::<B>(
            mv,
            node,
            depth,
            improving,
        ) {
            lemma_moves_fit::<R, B>(rules, p, w, known, node, alpha, beta, depth, ply, improving);
        } else {
            reveal(weighed);
            let counted = known.counting(mv);
            let found = move_searched::<R, B>(rules, p, w, counted, node, beta, depth, ply, mv);
            let step = weighed::<B>(p, counted, found, node, beta, depth, ply, mv);
            if step is On {
                lemma_moves_fit::<R, B>(
                    rules,
                    p,
                    step->On_1,
                    step->On_0,
                    node,
                    alpha,
                    beta,
                    depth,
                    ply,
                    improving,
                );
            }
        }
    }
}

/// The bound that a node stores in the table is true of its window: an upper bound
/// is at most alpha and comes without a move, an exact score lies between alpha
/// and beta, a lower bound is at least beta.
pub proof fn stored_bounds_fit_the_window<R: Rules, B: Backend>(
    rules: &R,
    p: PositionModel,
    w: World<B::State>,
    tt_move: Option<Move>,
    node: NodeType,
    alpha: int,
    beta: int,
    depth: int,
    ply: int,
    improving: bool,
)
    requires
        depth > 0,
    ensures
        fits(
            moves_searched::<R, B>(
                rules,
                p,
                w,
                fresh_tally(tt_move, alpha, depth),
                node,
                beta,
                depth,
                ply,
                improving,
            ).tally,
            alpha,
            beta,
        ),
{
    lemma_moves_fit::<R, B>(
        rules,
        p,
        w,
        fresh_tally(tt_move, alpha, depth),
        node,
        alpha,
        beta,
        depth,
        ply,
        improving,
    );
}

proof fn lemma_noisies_raise<R: Rules, B: Backend>(
    rules: &R,
    p: PositionModel,
    w: World<B::State>,
    tally: QuietTally,
    node: NodeType,
    beta: int,
    ply: int,
)
    requires
        ply < MAX_PLY,
    ensures
        noisies_searched::<R, B>(rules, p, w, tally, node, beta, ply).0 matches Some(score)
            ==> score >= tally.best_score,
        noisies_searched::<R, B>(rules, p, w, tally, node, beta, ply).0 is None
            ==> noisies_searched::<R, B>(rules, p, w, tally, node, beta, ply).1.t.stop,
    decreases tally.picker.stage.ahead(), tally.list.len() - tally.picker.cursor,
{
    reveal(noisies_searched);
    reveal(noisy_searched);
    turns_run_out::<R, B>(rules, w.s, p, tally.picker, tally.list);
    let turn = tally.picker.pick::<R, B>(rules, w.s, p, tally.list);
    let next = tally.after_turn(turn);
    if turn.mv is Some {
        let mv = turn.mv->0;
        let known = next.with_safety(rules, p.board(), mv);
        if next.refutes(mv) {
            lemma_noisies_raise::<R, B>(rules, p, w, next, node, beta, ply);
        } else if known.late::<B>(mv) || known.crowded::<B>(mv, node) {
            lemma_noisies_raise::<R, B>(rules, p, w, known, node, beta, ply);
        } else {
            let counted = known.counting(mv);
            let found = noisy_searched::<R, B>(rules, p, w, counted, node, beta, ply, mv);
            let scored = counted.with_reply(mv, found.w.t.stack[ply + 1].mv).with_score(
                found.score,
            );
            let after = if found.score > counted.alpha {
                found.w.with_thread(raised(found.w.t, mv, node, ply))
            } else {
                found.w
            };
            lemma_noisies_raise::<R, B>(rules, p, after, scored, node, beta, ply);
        }
    }
}

/// A side may always stand pat: unless it is stopped, the game is over or the
/// table settles it, a quiescence search scores no less than the evaluation.
pub proof fn standing_pat_is_a_floor<R: Rules, B: Backend>(
    rules: &R,
    p: PositionModel,
    w: World<B::State>,
    node: NodeType,
    alpha: int,
    beta: int,
    ply: int,
)
    requires
        ply < MAX_PLY,
        game_over(rules, p, NodeType::NonPV, ply) is None,
        ({
            let s = after_must_stop::<B>(w.with_state(B::after_node(w.s))).s;
            B::entry(s, p.board().hash) matches Some(e) ==> !e.flag.settles(e.score@, alpha, beta)
        }),
    ensures
        ({
            let s = after_must_stop::<B>(w.with_state(B::after_node(w.s))).s;
            let o = quiesced::<R, B>(rules, p, w, node, alpha, beta, ply);
            o.w.t.stop || o.score >= static_eval_of::<B>(
                B::after_probe(s, p.board().hash),
                p.board(),
            )
        }),
{
    reveal(quiesced);
    reveal(noisies_searched);
    let b = p.board();
    let w1 = after_must_stop::<B>(w.with_state(B::after_node(w.s)));
    let w2 = w1.with_thread(entered(w1.t, node, ply)).with_state(B::after_probe(w1.s, b.hash));
    let found = B::entry(w1.s, b.hash);
    let e = found->0;
    let tt_move = if found is Some && e.best_move is Some && e.best_move->0.flag.noisy() {
        e.best_move
    } else {
        None
    };
    let static_eval = static_eval_of::<B>(w2.s, b);
    lemma_noisies_raise::<R, B>(
        rules,
        p,
        w2.with_thread(w2.t.with_evals(ply, B::eval_of(w2.s, b), static_eval)),
        fresh_quiet_tally(
            tt_move,
            if static_eval > alpha {
                static_eval
            } else {
                alpha
            },
            static_eval,
        ),
        node,
        beta,
        ply,
    );
}

proof fn lemma_nothing_to_pick<R: Rules, B: Backend>(
    rules: &R,
    s: B::State,
    p: PositionModel,
    pk: PickerModel,
)
    requires
        pk.cursor == 0,
        pk.stage is TTMove,
        !has_moves(rules, p.board()),
    ensures
        pk.pick::<R, B>(rules, s, p, Seq::empty()).mv is None,
{
    let turn = pk.pick::<R, B>(rules, s, p, Seq::empty());
    if turn.mv is Some {
        let states = |k: int| s;
        let all = handed_out::<R, B>(rules, p, states, 0, pk, Seq::empty());
        assert(all[0] == turn.mv->0);
        every_legal_move_is_handed_out::<R, B>(rules, p, states, pk, turn.mv->0);
        assert(all.contains(turn.mv->0));
    }
}

/// A side without a legal move wins on the spot: its node scores a mate, and
/// nothing is stored of it.
pub proof fn a_stalemate_is_a_win<R: Rules, B: Backend>(
    rules: &R,
    p: PositionModel,
    w: World<B::State>,
    node: NodeType,
    alpha: int,
    beta: int,
    depth: int,
    ply: int,
    tt_move: Option<Move>,
    raw_eval: int,
    improving: bool,
)
    requires
        depth > 0,
        !has_moves(rules, p.board()),
    ensures
        ({
            let o = all_searched::<R, B>(
                rules,
                p,
                w,
                node,
                alpha,
                beta,
                depth,
                ply,
                tt_move,
                raw_eval,
                improving,
            );
            o.score == mate_in(ply) && o.w == w
        }),
{
    reveal(all_searched);
    reveal(moves_searched);
    reveal(concluded);
    lemma_nothing_to_pick::<R, B>(rules, w.s, p, fresh_tally(tt_move, alpha, depth).picker);
}

} // verus!
