//! What every search leaves alone.

use crate::common::moves::Move;
use crate::position::PositionModel;
use crate::rules::Rules;
use crate::search::backend::Backend;
use crate::search::model::{
    after_must_stop, all_searched, concluded, consulted, consulted_duckless, entered,
    fresh_quiet_tally, fresh_tally, improves, move_searched, moves_searched, node_searched,
    node_unfolds, noisies_searched, noisy_searched, null_move_tried, null_move_wanted, quiesced,
    raised, reach, searched, static_eval_of, turns_run_out, weighed, NodeType,
    QuietTally, Searched, Step, Tally, World,
};
use crate::search::quiescence::keeps;
use crate::search::thread::ThreadModel;
use crate::search::MAX_PLY;
use vstd::prelude::*;

verus! {

proof fn lemma_keeps_joined(a: ThreadModel, b: ThreadModel, c: ThreadModel, ply: int)
    requires
        keeps(a, b, ply) || keeps(a, b, ply + 1),
        keeps(b, c, ply) || keeps(b, c, ply + 1),
    ensures
        keeps(a, c, ply),
        keeps(a, b, ply + 1) && keeps(b, c, ply + 1) ==> keeps(a, c, ply + 1),
{
    assert forall|i: int| 0 <= i < ply implies #[trigger] c.stack[i] == a.stack[i] by {
        assert(b.stack[i] == a.stack[i]);
    }
    if keeps(a, b, ply + 1) && keeps(b, c, ply + 1) {
        assert forall|i: int| 0 <= i < ply + 1 implies #[trigger] c.stack[i] == a.stack[i] by {
            assert(b.stack[i] == a.stack[i]);
        }
    }
}

/// A quiescence search keeps the plies before its own, the null move's ply, and a
/// stop once it is ordered.
pub proof fn quiescence_keeps_earlier_plies<R: Rules, B: Backend>(
    rules: &R,
    p: PositionModel,
    w: World<B::State>,
    node: NodeType,
    alpha: int,
    beta: int,
    ply: int,
)
    requires
        0 <= ply,
        w.t.stack.len() == MAX_PLY + 1,
    ensures
        keeps(w.t, quiesced::<R, B>(rules, p, w, node, alpha, beta, ply).w.t, ply),
    decreases
            if ply < MAX_PLY {
                MAX_PLY - ply
            } else {
                0
            },
            2nat,
            0int,
            0int,
{
    reveal(quiesced);
    reveal(noisies_searched);
    if ply < MAX_PLY {
        let b = p.board();
        let w1 = after_must_stop::<B>(w.with_state(B::after_node(w.s)));
        let w2 = w1.with_thread(entered(w1.t, node, ply)).with_state(
            B::after_probe(w1.s, b.hash),
        );
        let found = B::entry(w1.s, b.hash);
        let e = found->0;
        let tt_move = if found is Some && e.best_move is Some && e.best_move->0.flag.noisy() {
            e.best_move
        } else {
            None
        };
        let static_eval = static_eval_of::<B>(w2.s, b);
        let w3 = w2.with_thread(w2.t.with_evals(ply, B::eval_of(w2.s, b), static_eval));
        let tally = fresh_quiet_tally(
            tt_move,
            if static_eval > alpha {
                static_eval
            } else {
                alpha
            },
            static_eval,
        );
        assert(keeps(w.t, w3.t, ply));
        lemma_noisies_keep::<R, B>(rules, p, w3, tally, node, beta, ply);
        lemma_keeps_joined(
            w.t,
            w3.t,
            noisies_searched::<R, B>(rules, p, w3, tally, node, beta, ply).1.t,
            ply,
        );
    }
}

/// Playing a noisy move keeps the plies up to that of the move.
pub proof fn lemma_noisy_keeps<R: Rules, B: Backend>(
    rules: &R,
    p: PositionModel,
    w: World<B::State>,
    tally: QuietTally,
    node: NodeType,
    beta: int,
    ply: int,
    mv: Move,
)
    requires
        0 <= ply < MAX_PLY,
        w.t.stack.len() == MAX_PLY + 1,
    ensures
        keeps(
            w.t,
            noisy_searched::<R, B>(rules, p, w, tally, node, beta, ply, mv).w.t,
            ply + 1,
        ),
    decreases MAX_PLY - ply, 0nat, 0int, 0int,
{
    reveal(noisy_searched);
    reveal(quiesced);
    quiescence_keeps_earlier_plies::<R, B>(
        rules,
        p.after_move(rules, mv),
        w,
        node,
        -beta,
        -tally.alpha,
        ply + 1,
    );
}

proof fn lemma_noisies_keep<R: Rules, B: Backend>(
    rules: &R,
    p: PositionModel,
    w: World<B::State>,
    tally: QuietTally,
    node: NodeType,
    beta: int,
    ply: int,
)
    requires
        0 <= ply < MAX_PLY,
        w.t.stack.len() == MAX_PLY + 1,
    ensures
        keeps(w.t, noisies_searched::<R, B>(rules, p, w, tally, node, beta, ply).1.t, ply),
    decreases
            MAX_PLY - ply,
            1nat,
            tally.picker.stage.ahead(),
            tally.list.len() - tally.picker.cursor,
{
    reveal(noisies_searched);
    reveal(noisy_searched);
    turns_run_out::<R, B>(rules, w.s, p, tally.picker, tally.list);
    let turn = tally.picker.pick::<R, B>(rules, w.s, p, tally.list);
    let next = tally.after_turn(turn);
    if turn.mv is Some {
        let mv = turn.mv->0;
        let known = next.with_safety(rules, p.board(), mv);
        if next.refutes(mv) {
            lemma_noisies_keep::<R, B>(rules, p, w, next, node, beta, ply);
        } else if known.late::<B>(mv) || known.crowded::<B>(mv, node) {
            lemma_noisies_keep::<R, B>(rules, p, w, known, node, beta, ply);
        } else {
            let counted = known.counting(mv);
            lemma_noisy_keeps::<R, B>(rules, p, w, counted, node, beta, ply, mv);
            let found = noisy_searched::<R, B>(rules, p, w, counted, node, beta, ply, mv);
            let scored = counted.with_reply(mv, found.w.t.stack[ply + 1].mv).with_score(
                found.score,
            );
            let after = if found.score > counted.alpha {
                found.w.with_thread(raised(found.w.t, mv, node, ply))
            } else {
                found.w
            };
            assert(keeps(found.w.t, after.t, ply));
            lemma_keeps_joined(w.t, found.w.t, after.t, ply);
            lemma_noisies_keep::<R, B>(rules, p, after, scored, node, beta, ply);
            lemma_keeps_joined(
                w.t,
                after.t,
                noisies_searched::<R, B>(rules, p, after, scored, node, beta, ply).1.t,
                ply,
            );
        }
    }
}

/// Looking a position up changes at most the best move of its ply, and that only
/// if the table settles the node.
pub proof fn lemma_consulting_keeps<R: Rules, B: Backend>(
    rules: &R,
    p: PositionModel,
    w: World<B::State>,
    node: NodeType,
    alpha: int,
    beta: int,
    depth: int,
    ply: int,
)
    requires
        0 <= ply < w.t.stack.len(),
    ensures
        ({
            let c = consulted::<R, B>(rules, p.board(), w, node, alpha, beta, depth, ply);
            &&& keeps(w.t, c.w.t, ply)
            &&& c.w.t.stop == w.t.stop
            &&& c.w.t.stack[ply].pv == w.t.stack[ply].pv
            &&& c.settled is None ==> c.w.t == w.t
            &&& c.settled matches Some(score) ==> c.w.t == w.t || score >= beta
            &&& node is Root ==> c.settled is None
        }),
{
    reveal(consulted);
    reveal(consulted_duckless);
}

/// A search keeps the plies before its own, the null move's ply, and a stop once
/// it is ordered.
pub proof fn search_keeps_earlier_plies<R: Rules, B: Backend>(
    rules: &R,
    p: PositionModel,
    w: World<B::State>,
    node: NodeType,
    alpha: int,
    beta: int,
    depth: int,
    ply: int,
)
    requires
        0 <= ply,
        w.t.stack.len() == MAX_PLY + 1,
    ensures
        keeps(w.t, searched::<R, B>(rules, p, w, node, alpha, beta, depth, ply).w.t, ply),
    decreases reach(depth), 7nat, 0int, 0int,
{
    reveal(searched);
    reveal(node_searched);
    let w1 = if node is Root {
        w
    } else {
        after_must_stop::<B>(w)
    };
    let w2 = w1.with_thread(entered(w1.t, node, ply));
    if ply <= MAX_PLY {
        assert(keeps(w.t, w2.t, ply));
    }
    if ply > MAX_PLY {
        assert(keeps(w.t, w1.t, ply));
    } else if depth <= 0 {
        quiescence_keeps_earlier_plies::<R, B>(rules, p, w2, node, alpha, beta, ply);
        lemma_keeps_joined(
            w.t,
            w2.t,
            quiesced::<R, B>(rules, p, w2, node, alpha, beta, ply).w.t,
            ply,
        );
    } else {
        let b = p.board();
        let w3 = if node is Root {
            w2
        } else {
            w2.with_state(B::after_node(w2.s))
        };
        let c = consulted::<R, B>(rules, b, w3, node, alpha, beta, depth, ply);
        lemma_consulting_keeps::<R, B>(rules, p, w3, node, alpha, beta, depth, ply);
        let raw_eval = B::eval_of(c.w.s, b);
        let static_eval = static_eval_of::<B>(c.w.s, b);
        let improving = improves(c.w.t, ply, static_eval);
        let w4 = c.w.with_thread(c.w.t.with_evals(ply, raw_eval, static_eval));
        lemma_keeps_joined(w.t, w3.t, c.w.t, ply);
        assert(keeps(c.w.t, w4.t, ply));
        lemma_keeps_joined(w.t, c.w.t, w4.t, ply);
        lemma_node_keeps::<R, B>(
            rules,
            p,
            w4,
            node,
            alpha,
            beta,
            depth,
            ply,
            c.tt_move,
            raw_eval,
            static_eval,
            improving,
        );
        lemma_keeps_joined(
            w.t,
            w4.t,
            node_searched::<R, B>(
                rules,
                p,
                w4,
                node,
                alpha,
                beta,
                depth,
                ply,
                c.tt_move,
                raw_eval,
                static_eval,
                improving,
            ).w.t,
            ply,
        );
    }
}

proof fn lemma_node_keeps<R: Rules, B: Backend>(
    rules: &R,
    p: PositionModel,
    w: World<B::State>,
    node: NodeType,
    alpha: int,
    beta: int,
    depth: int,
    ply: int,
    tt_move: Option<Move>,
    raw_eval: int,
    static_eval: int,
    improving: bool,
)
    requires
        0 <= ply,
        depth > 0,
        ply <= MAX_PLY,
        w.t.stack.len() == MAX_PLY + 1,
    ensures
        keeps(
            w.t,
            node_searched::<R, B>(
                rules,
                p,
                w,
                node,
                alpha,
                beta,
                depth,
                ply,
                tt_move,
                raw_eval,
                static_eval,
                improving,
            ).w.t,
            ply,
        ),
    decreases reach(depth), 6nat, 0int, 0int,
{
    node_unfolds::<R, B>(
        rules,
        p,
        w,
        node,
        alpha,
        beta,
        depth,
        ply,
        tt_move,
        raw_eval,
        static_eval,
        improving,
    );
    let wanted = null_move_wanted::<B>(w.t, node, beta, depth, ply, static_eval);
    let after = if wanted {
        lemma_null_move_keeps::<R, B>(rules, p, w, alpha, beta, depth, ply);
        null_move_tried::<R, B>(rules, p, w, alpha, beta, depth, ply).1
    } else {
        w
    };
    if ply < MAX_PLY {
        lemma_all_keep::<R, B>(
            rules,
            p,
            after,
            node,
            alpha,
            beta,
            depth,
            ply,
            tt_move,
            raw_eval,
            improving,
        );
        lemma_keeps_joined(
            w.t,
            after.t,
            all_searched::<R, B>(
                rules,
                p,
                after,
                node,
                alpha,
                beta,
                depth,
                ply,
                tt_move,
                raw_eval,
                improving,
            ).w.t,
            ply,
        );
    }
}

/// A null move keeps the plies before that of its node.
pub proof fn lemma_null_move_keeps<R: Rules, B: Backend>(
    rules: &R,
    p: PositionModel,
    w: World<B::State>,
    alpha: int,
    beta: int,
    depth: int,
    ply: int,
)
    requires
        0 <= ply,
        depth >= 4,
        ply <= MAX_PLY,
        w.t.stack.len() == MAX_PLY + 1,
    ensures
        keeps(w.t, null_move_tried::<R, B>(rules, p, w, alpha, beta, depth, ply).1.t, ply),
    decreases reach(depth), 2nat, 0int, 0int,
{
    reveal(null_move_tried);
    reveal(searched);
    let passed = searched::<R, B>(
        rules,
        p.after_null(rules),
        w,
        NodeType::NonPV,
        -beta,
        -beta + 1,
        depth - 3,
        ply + 1,
    );
    search_keeps_earlier_plies::<R, B>(
        rules,
        p.after_null(rules),
        w,
        NodeType::NonPV,
        -beta,
        -beta + 1,
        depth - 3,
        ply + 1,
    );
    let w2 = passed.w;
    let marked = w2.with_thread(w2.t.with_nmr_ply(Some(ply as usize)));
    search_keeps_earlier_plies::<R, B>(
        rules,
        p,
        marked,
        NodeType::NonPV,
        alpha,
        beta,
        depth / 2,
        ply,
    );
    let confirmed = searched::<R, B>(
        rules,
        p,
        marked,
        NodeType::NonPV,
        alpha,
        beta,
        depth / 2,
        ply,
    );
    assert forall|i: int| 0 <= i < ply implies #[trigger] confirmed.w.t.stack[i]
        == w.t.stack[i] by {
        assert(confirmed.w.t.stack[i] == marked.t.stack[i]);
        assert(passed.w.t.stack[i] == w.t.stack[i]);
    }
    lemma_keeps_joined(w.t, w.t, w2.t, ply);
}

/// Playing a move keeps the plies up to that of the move.
pub proof fn lemma_move_keeps<R: Rules, B: Backend>(
    rules: &R,
    p: PositionModel,
    w: World<B::State>,
    tally: Tally,
    node: NodeType,
    beta: int,
    depth: int,
    ply: int,
    mv: Move,
)
    requires
        0 <= ply,
        depth > 0,
        ply < MAX_PLY,
        w.t.stack.len() == MAX_PLY + 1,
    ensures
        keeps(
            w.t,
            move_searched::<R, B>(rules, p, w, tally, node, beta, depth, ply, mv).w.t,
            ply + 1,
        ),
    decreases reach(depth), 1nat, 0int, 0int,
{
    reveal(move_searched);
    reveal(searched);
    let after = p.after_move(rules, mv);
    let reduction = tally.reduction(mv, depth);
    search_keeps_earlier_plies::<R, B>(
        rules,
        after,
        w,
        NodeType::NonPV,
        -tally.alpha - 1,
        -tally.alpha,
        depth - 1 - reduction,
        ply + 1,
    );
    let o = searched::<R, B>(
        rules,
        after,
        w,
        NodeType::NonPV,
        -tally.alpha - 1,
        -tally.alpha,
        depth - 1 - reduction,
        ply + 1,
    );
    search_keeps_earlier_plies::<R, B>(
        rules,
        after,
        o.w,
        NodeType::PV,
        -beta,
        -tally.alpha,
        depth - 1,
        ply + 1,
    );
    search_keeps_earlier_plies::<R, B>(
        rules,
        after,
        w,
        NodeType::PV,
        -beta,
        -tally.alpha,
        depth - 1,
        ply + 1,
    );
    lemma_keeps_joined(
        w.t,
        o.w.t,
        searched::<R, B>(
            rules,
            after,
            o.w,
            NodeType::PV,
            -beta,
            -tally.alpha,
            depth - 1,
            ply + 1,
        ).w.t,
        ply,
    );
}

/// Weighing a move changes its own ply only: the line, and the best move if the
/// move becomes it. It changes whether the thread is stopped in no way.
pub proof fn lemma_weighing_keeps<B: Backend>(
    p: PositionModel,
    counted: Tally,
    found: Searched<B::State>,
    node: NodeType,
    beta: int,
    depth: int,
    ply: int,
    mv: Move,
)
    requires
        0 <= ply,
        ply + 1 < found.w.t.stack.len(),
    ensures
        ({
            let (tally, t) = match weighed::<B>(p, counted, found, node, beta, depth, ply, mv) {
                Step::End(end) => (end.tally, end.w.t),
                Step::On(tally, w) => (tally, w.t),
            };
            &&& keeps(found.w.t, t, ply)
            &&& t.stop == found.w.t.stop
            &&& !t.stop && found.w.t.stack[ply].mv == counted.best_move ==> t.stack[ply].mv
                == tally.best_move
        }),
        weighed::<B>(p, counted, found, node, beta, depth, ply, mv) matches Step::End(end) ==> (
        end.stopped <==> found.w.t.stop),
        weighed::<B>(p, counted, found, node, beta, depth, ply, mv) is On ==> !found.w.t.stop,
{
    reveal(weighed);
}

proof fn lemma_moves_keep<R: Rules, B: Backend>(
    rules: &R,
    p: PositionModel,
    w: World<B::State>,
    tally: Tally,
    node: NodeType,
    beta: int,
    depth: int,
    ply: int,
    improving: bool,
)
    requires
        0 <= ply,
        depth > 0,
        ply < MAX_PLY,
        w.t.stack.len() == MAX_PLY + 1,
    ensures
        keeps(
            w.t,
            moves_searched::<R, B>(rules, p, w, tally, node, beta, depth, ply, improving).w.t,
            ply,
        ),
    decreases
            reach(depth),
            2nat,
            tally.picker.stage.ahead(),
            tally.list.len() - tally.picker.cursor,
{
    reveal(moves_searched);
    reveal(move_searched);
    turns_run_out::<R, B>(rules, w.s, p, tally.picker, tally.list);
    let turn = tally.picker.pick::<R, B>(rules, w.s, p, tally.list);
    let next = tally.after_turn(turn);
    if turn.mv is Some {
        let mv = turn.mv->0;
        let known = next.with_safety(rules, p.board(), mv);
        if next.refutes(mv) {
            lemma_moves_keep::<R, B>(rules, p, w, next, node, beta, depth, ply, improving);
        } else if known.late::<B>(mv, depth, improving) || known.crowded::<B>(
            mv,
            node,
            depth,
            improving,
        ) {
            lemma_moves_keep::<R, B>(rules, p, w, known, node, beta, depth, ply, improving);
        } else {
            let counted = known.counting(mv);
            lemma_move_keeps::<R, B>(rules, p, w, counted, node, beta, depth, ply, mv);
            let found = move_searched::<R, B>(rules, p, w, counted, node, beta, depth, ply, mv);
            lemma_weighing_keeps::<B>(p, counted, found, node, beta, depth, ply, mv);
            let step = weighed::<B>(p, counted, found, node, beta, depth, ply, mv);
            match step {
                Step::End(end) => {
                    lemma_keeps_joined(w.t, found.w.t, end.w.t, ply);
                },
                Step::On(tally2, w2) => {
                    lemma_keeps_joined(w.t, found.w.t, w2.t, ply);
                    assert(tally2.picker == next.picker && tally2.list == next.list) by {
                        reveal(weighed);
                    }
                    lemma_moves_keep::<R, B>(
                        rules,
                        p,
                        w2,
                        tally2,
                        node,
                        beta,
                        depth,
                        ply,
                        improving,
                    );
                    lemma_keeps_joined(
                        w.t,
                        w2.t,
                        moves_searched::<R, B>(
                            rules,
                            p,
                            w2,
                            tally2,
                            node,
                            beta,
                            depth,
                            ply,
                            improving,
                        ).w.t,
                        ply,
                    );
                },
            }
        }
    }
}

proof fn lemma_all_keep<R: Rules, B: Backend>(
    rules: &R,
    p: PositionModel,
    w: World<B::State>,
    node: NodeType,
    alpha: int,
    beta: int,
    depth: int,
    ply: int,
    tt_move: Option<Move>,
    raw_eval: int,
    improving: bool,
)
    requires
        0 <= ply,
        depth > 0,
        ply < MAX_PLY,
        w.t.stack.len() == MAX_PLY + 1,
    ensures
        keeps(
            w.t,
            all_searched::<R, B>(
                rules,
                p,
                w,
                node,
                alpha,
                beta,
                depth,
                ply,
                tt_move,
                raw_eval,
                improving,
            ).w.t,
            ply,
        ),
    decreases reach(depth), 5nat, 0int, 0int,
{
    reveal(all_searched);
    reveal(moves_searched);
    reveal(concluded);
    lemma_moves_keep::<R, B>(
        rules,
        p,
        w,
        fresh_tally(tt_move, alpha, depth),
        node,
        beta,
        depth,
        ply,
        improving,
    );
}

/// Whether a part of the surroundings' state is touched neither by counting
/// positions, nor by asking the clock, nor by stopping, nor by looking positions
/// up.
pub open spec fn only_read<B: Backend, V>(part: spec_fn(B::State) -> V) -> bool {
    &&& forall|s: B::State| part(#[trigger] B::after_node(s)) == part(s)
    &&& forall|s: B::State| part(#[trigger] B::after_stopping(s)) == part(s)
    &&& forall|s: B::State| part(#[trigger] B::after_set_stop(s, true)) == part(s)
    &&& forall|s: B::State, key: u64| part(#[trigger] B::after_probe(s, key)) == part(s)
}

/// A quiescence search stores nothing in the table and learns nothing: it leaves
/// every part of the surroundings alone that counting, stopping and looking up
/// leave alone.
pub proof fn quiescence_writes_nothing<R: Rules, B: Backend, V>(
    rules: &R,
    p: PositionModel,
    w: World<B::State>,
    node: NodeType,
    alpha: int,
    beta: int,
    ply: int,
    part: spec_fn(B::State) -> V,
)
    requires
        only_read::<B, V>(part),
    ensures
        part(quiesced::<R, B>(rules, p, w, node, alpha, beta, ply).w.s) == part(w.s),
    decreases
            if ply < MAX_PLY {
                MAX_PLY - ply
            } else {
                0
            },
            2nat,
            0int,
            0int,
{
    reveal(quiesced);
    reveal(noisies_searched);
    let w0 = w.with_state(B::after_node(w.s));
    let w1 = after_must_stop::<B>(w0);
    assert(part(w0.s) == part(w.s));
    assert(part(w1.s) == part(w.s));
    assert(part(B::after_set_stop(w1.s, true)) == part(w.s));
    if ply < MAX_PLY {
        let b = p.board();
        let w2 = w1.with_thread(entered(w1.t, node, ply)).with_state(
            B::after_probe(w1.s, b.hash),
        );
        assert(part(w2.s) == part(w.s));
        let found = B::entry(w1.s, b.hash);
        let e = found->0;
        let tt_move = if found is Some && e.best_move is Some && e.best_move->0.flag.noisy() {
            e.best_move
        } else {
            None
        };
        let static_eval = static_eval_of::<B>(w2.s, b);
        lemma_noisies_write_nothing::<R, B, V>(
            rules,
            p,
            w2.with_thread(w2.t.with_evals(ply, B::eval_of(w2.s, b), static_eval)),
            fresh_quiet_tally(
                tt_move,
                if static_eval > alpha {
                    static_eval
                } else {
                    alpha
                },
                static_eval,
            ),
            node,
            beta,
            ply,
            part,
        );
    }
}

proof fn lemma_noisies_write_nothing<R: Rules, B: Backend, V>(
    rules: &R,
    p: PositionModel,
    w: World<B::State>,
    tally: QuietTally,
    node: NodeType,
    beta: int,
    ply: int,
    part: spec_fn(B::State) -> V,
)
    requires
        ply < MAX_PLY,
        only_read::<B, V>(part),
    ensures
        part(noisies_searched::<R, B>(rules, p, w, tally, node, beta, ply).1.s) == part(w.s),
    decreases
            MAX_PLY - ply,
            1nat,
            tally.picker.stage.ahead(),
            tally.list.len() - tally.picker.cursor,
{
    reveal(noisies_searched);
    reveal(noisy_searched);
    reveal(quiesced);
    turns_run_out::<R, B>(rules, w.s, p, tally.picker, tally.list);
    let turn = tally.picker.pick::<R, B>(rules, w.s, p, tally.list);
    let next = tally.after_turn(turn);
    if turn.mv is Some {
        let mv = turn.mv->0;
        let known = next.with_safety(rules, p.board(), mv);
        if next.refutes(mv) {
            lemma_noisies_write_nothing::<R, B, V>(rules, p, w, next, node, beta, ply, part);
        } else if known.late::<B>(mv) || known.crowded::<B>(mv, node) {
            lemma_noisies_write_nothing::<R, B, V>(rules, p, w, known, node, beta, ply, part);
        } else {
            let counted = known.counting(mv);
            quiescence_writes_nothing::<R, B, V>(
                rules,
                p.after_move(rules, mv),
                w,
                node,
                -beta,
                -counted.alpha,
                ply + 1,
                part,
            );
            let found = noisy_searched::<R, B>(rules, p, w, counted, node, beta, ply, mv);
            let scored = counted.with_reply(mv, found.w.t.stack[ply + 1].mv).with_score(
                found.score,
            );
            let after = if found.score > counted.alpha {
                found.w.with_thread(raised(found.w.t, mv, node, ply))
            } else {
                found.w
            };
            lemma_noisies_write_nothing::<R, B, V>(
                rules,
                p,
                after,
                scored,
                node,
                beta,
                ply,
                part,
            );
        }
    }
}

} // verus!
