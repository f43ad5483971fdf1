//! The move and the line that a node records, and what it stores of them.

use crate::board::board::BoardModel;
use crate::common::moves::Move;
use crate::common::types::{square_numbers_are_exact, Square};
use crate::position::PositionModel;
use crate::rules::{has_moves, legal, MoveFilter, Rules};
use crate::score::announces_mate;
use crate::search::backend::{Backend, TTFlag};
use crate::search::frames::{
    lemma_consulting_keeps, lemma_move_keeps, lemma_noisy_keeps, lemma_null_move_keeps,
    lemma_weighing_keeps, search_keeps_earlier_plies,
};
use crate::search::model::{
    adjusted, after_must_stop, all_searched, concluded, consulted, entered, first_pick_finds_a_move,
    fresh_quiet_tally, fresh_tally, futile, game_over, improves, move_searched, moves_searched,
    must_stop, node_searched, node_unfolds, noisies_searched, noisy_searched, null_move_tried,
    null_move_wanted, quiesced, raised, reach, route, searched, static_eval_of, turns_run_out,
    weighed, NodeType, QuietTally, Tally, World,
};
use crate::search::move_picker::{
    lemma_next_other, picks_are_legal_and_run_out, ranked_noisies, PickerModel,
};
use crate::search::move_stack::ScoredMove;
use crate::search::outcomes::stored_bounds_fit_the_window;
use crate::search::picking::lemma_ranked_members;
use crate::search::thread::ThreadModel;
use crate::search::MAX_PLY;
use vstd::prelude::*;

verus! {

/// Whether a node's tables have their sizes, and its first move has been searched
/// or nothing has been tried.
pub open spec fn begun_well(tally: Tally) -> bool {
    &&& tally.ducks_by_move.len() == 4096
    &&& tally.duck_counts.len() == 64
    &&& tally.duck_refutations.len() == 4096
    &&& tally.legal_moves > 0 ==> tally.best_score is Some
    &&& tally.legal_moves == 0 ==> {
        &&& tally.best_score is None
        &&& tally.best_move is None
        &&& forall|i: int| 0 <= i < 4096 ==> #[trigger] tally.ducks_by_move[i] == 0
        &&& forall|i: int| 0 <= i < 64 ==> #[trigger] tally.duck_counts[i] == 0
        &&& forall|i: int|
            0 <= i < 4096 ==> #[trigger] tally.duck_refutations[i] == Set::<Square>::empty()
    }
}

proof fn lemma_moves_record<R: Rules, B: Backend>(
    rules: &R,
    p: PositionModel,
    w: World<B::State>,
    tally: Tally,
    node: NodeType,
    beta: int,
    depth: int,
    ply: int,
    improving: bool,
)
    requires
        0 <= ply,
        depth > 0,
        ply < MAX_PLY,
        w.t.stack.len() == MAX_PLY + 1,
        begun_well(tally),
        tally.legal_moves > 0 ==> !w.t.stop,
        !w.t.stop ==> w.t.stack[ply].mv == tally.best_move,
    ensures
        ({
            let end = moves_searched::<R, B>(
                rules,
                p,
                w,
                tally,
                node,
                beta,
                depth,
                ply,
                improving,
            );
            &&& end.stopped ==> end.w.t.stop
            &&& !end.stopped ==> {
                &&& end.w.t.stop == w.t.stop
                &&& w.t.stop ==> end.tally.legal_moves == 0
                &&& !w.t.stop ==> end.w.t.stack[ply].mv == end.tally.best_move
                &&& begun_well(end.tally)
                &&& tally.legal_moves > 0 ==> end.tally.legal_moves > 0
                &&& tally.picker.pick::<R, B>(rules, w.s, p, tally.list).mv is Some
                    ==> end.tally.legal_moves > 0
                &&& end.tally.legal_moves == 0 ==> end.w == w
            }
        }),
    decreases tally.picker.stage.ahead(), tally.list.len() - tally.picker.cursor,
{
    reveal(moves_searched);
    reveal(move_searched);
    turns_run_out::<R, B>(rules, w.s, p, tally.picker, tally.list);
    let turn = tally.picker.pick::<R, B>(rules, w.s, p, tally.list);
    let next = tally.after_turn(turn);
    if turn.mv is Some {
        let mv = turn.mv->0;
        let known = next.with_safety(rules, p.board(), mv);
        square_numbers_are_exact(mv.src, 0);
        square_numbers_are_exact(mv.dest, 0);
        square_numbers_are_exact(mv.duck, 0);
        B::limits_are_positive(depth, !mv.flag.noisy(), improving);
        assert(0 <= route(mv) < 4096);
        assert(next.legal_moves > 0);
        if tally.legal_moves == 0 {
            assert(next.ducks_by_move[route(mv)] == 0);
            assert(next.duck_counts[mv.duck.number()] == 0);
            assert(next.duck_refutations[route(mv)] == Set::<Square>::empty());
        }
        if next.refutes(mv) {
            lemma_moves_record::<R, B>(rules, p, w, next, node, beta, depth, ply, improving);
        } else if known.late::<B>(mv, depth, improving) || known.crowded::<B>(
            mv,
            node,
            depth,
            improving,
        ) {
            lemma_moves_record::<R, B>(rules, p, w, known, node, beta, depth, ply, improving);
        } else {
            let counted = known.counting(mv);
            lemma_move_keeps::<R, B>(rules, p, w, counted, node, beta, depth, ply, mv);
            let found = move_searched::<R, B>(rules, p, w, counted, node, beta, depth, ply, mv);
            assert(found.w.t.stack[ply] == w.t.stack[ply]);
            lemma_weighing_keeps::<B>(p, counted, found, node, beta, depth, ply, mv);
            let step = weighed::<B>(p, counted, found, node, beta, depth, ply, mv);
            reveal(weighed);
            if step is On {
                lemma_moves_record::<R, B>(
                    rules,
                    p,
                    step->On_1,
                    step->On_0,
                    node,
                    beta,
                    depth,
                    ply,
                    improving,
                );
            }
        }
    }
}

/// A node whose moves are searched to the end without a stop records the move that
/// it stores as the best: none if no move raises alpha.
pub proof fn a_node_records_the_move_it_stores<R: Rules, B: Backend>(
    rules: &R,
    p: PositionModel,
    w: World<B::State>,
    tt_move: Option<Move>,
    node: NodeType,
    alpha: int,
    beta: int,
    depth: int,
    ply: int,
    improving: bool,
)
    requires
        0 <= ply,
        depth > 0,
        ply < MAX_PLY,
        w.t.stack.len() == MAX_PLY + 1,
        w.t.stack[ply].mv is None,
    ensures
        ({
            let end = moves_searched::<R, B>(
                rules,
                p,
                w,
                fresh_tally(tt_move, alpha, depth),
                node,
                beta,
                depth,
                ply,
                improving,
            );
            !end.stopped ==> end.w.t.stack[ply].mv == end.tally.best_move
        }),
{
    lemma_moves_record::<R, B>(
        rules,
        p,
        w,
        fresh_tally(tt_move, alpha, depth),
        node,
        beta,
        depth,
        ply,
        improving,
    );
}

/// The state after a node has been stored under its own key.
pub open spec fn stored<B: Backend>(s: B::State, b: BoardModel, tally: Tally) -> B::State {
    B::after_insert(
        s,
        b.hash,
        tally.best_move,
        tally.best_score->0,
        tally.best_move_depth,
        tally.flag,
    )
}

/// Whether storing a node was the last thing that happened to the surroundings,
/// but for what they may have learnt about the evaluation.
pub open spec fn stored_last<B: Backend>(
    s: B::State,
    b: BoardModel,
    tally: Tally,
    depth: int,
) -> bool {
    ||| exists|before: B::State| s == #[trigger] stored::<B>(before, b, tally)
    ||| exists|before: B::State, static_eval: int|
        s == #[trigger] B::after_update_corr(
            stored::<B>(before, b, tally),
            b,
            depth,
            tally.best_score->0,
            static_eval,
        )
}

/// What a node that searched its moves without a stop, and had one, says of them:
/// its score is the best one found; it is stored last, as an upper bound if it is
/// at most alpha, as a lower bound if it is at least beta, else as exact; there is
/// a best move if and only if the score exceeds alpha; and the ply's recorded move
/// is the stored one.
pub open spec fn reported<B: Backend>(
    p: PositionModel,
    tally: Tally,
    score: int,
    w: World<B::State>,
    alpha: int,
    beta: int,
    depth: int,
    ply: int,
) -> bool {
    &&& tally.best_score == Some(score)
    &&& stored_last::<B>(w.s, p.board(), tally, depth)
    &&& tally.flag is Upper <==> score <= alpha
    &&& tally.flag is Lower <==> score >= beta
    &&& tally.best_move is Some <==> score > alpha
    &&& w.t.stack[ply].mv == tally.best_move
}

proof fn lemma_concluding_stores<B: Backend>(
    p: PositionModel,
    tally: Tally,
    w: World<B::State>,
    depth: int,
    ply: int,
    raw_eval: int,
)
    requires
        tally.legal_moves > 0,
    ensures
        ({
            let o = concluded::<B>(p, tally, w, depth, ply, raw_eval);
            &&& o.w.t == w.t
            &&& o.score == tally.best_score->0
            &&& stored_last::<B>(o.w.s, p.board(), tally, depth)
        }),
{
    reveal(concluded);
    let b = p.board();
    let best = tally.best_score->0;
    let s1 = if b.duck is Some && tally.best_move is Some && !(tally.flag is Upper)
        && !announces_mate(best) {
        B::after_insert(
            w.s,
            b.duckless_key(),
            tally.best_move,
            best,
            tally.best_move_depth,
            TTFlag::Lower,
        )
    } else {
        w.s
    };
    let s2 = stored::<B>(s1, b, tally);
    let static_eval = adjusted(raw_eval, B::corr_of(s2, b));
    let s3 = B::after_update_corr(stored::<B>(s1, b, tally), b, depth, best, static_eval);
    let o = concluded::<B>(p, tally, w, depth, ply, raw_eval);
    assert(o.w.s == s2 || o.w.s == s3);
}

proof fn lemma_all_report<R: Rules, B: Backend>(
    rules: &R,
    p: PositionModel,
    w: World<B::State>,
    node: NodeType,
    alpha: int,
    beta: int,
    depth: int,
    ply: int,
    tt_move: Option<Move>,
    raw_eval: int,
    improving: bool,
)
    requires
        0 <= ply,
        depth > 0,
        ply < MAX_PLY,
        alpha < beta,
        w.t.stack.len() == MAX_PLY + 1,
        w.t.stop || w.t.stack[ply].mv is None,
    ensures
        ({
            let tally = fresh_tally(tt_move, alpha, depth);
            let end = moves_searched::<R, B>(
                rules,
                p,
                w,
                tally,
                node,
                beta,
                depth,
                ply,
                improving,
            );
            let o = all_searched::<R, B>(
                rules,
                p,
                w,
                node,
                alpha,
                beta,
                depth,
                ply,
                tt_move,
                raw_eval,
                improving,
            );
            &&& end.stopped ==> o.score == 0 && o.w.t.stop
            &&& !end.stopped ==> o.w.t.stop == w.t.stop
            &&& w.t.stop && has_moves(rules, p.board()) ==> end.stopped
            &&& !end.stopped && end.tally.legal_moves > 0 ==> reported::<B>(
                p,
                end.tally,
                o.score,
                o.w,
                alpha,
                beta,
                depth,
                ply,
            )
            &&& !end.stopped && end.tally.legal_moves == 0 ==> o.w == w
        }),
{
    reveal(all_searched);
    reveal(moves_searched);
    let tally = fresh_tally(tt_move, alpha, depth);
    lemma_moves_record::<R, B>(rules, p, w, tally, node, beta, depth, ply, improving);
    stored_bounds_fit_the_window::<R, B>(
        rules,
        p,
        w,
        tt_move,
        node,
        alpha,
        beta,
        depth,
        ply,
        improving,
    );
    if has_moves(rules, p.board()) {
        first_pick_finds_a_move::<R, B>(rules, w.s, p, tt_move, alpha, depth);
    }
    let end = moves_searched::<R, B>(rules, p, w, tally, node, beta, depth, ply, improving);
    if !end.stopped {
        if end.tally.legal_moves > 0 {
            lemma_concluding_stores::<B>(p, end.tally, end.w, depth, ply, raw_eval);
        } else {
            reveal(concluded);
        }
    }
}

/// What a node is about to search its moves with.
pub struct Entry<S> {
    pub w: World<S>,
    pub tt_move: Option<Move>,
    pub raw_eval: int,
    pub improving: bool,
}

/// With what a search comes to its moves, if it does: unless it has to stop, is at
/// the last ply or out of depth, the game is over, the table or the evaluation settles the node, or
/// a null move does.
pub open spec fn entry_to_moves<R: Rules, B: Backend>(
    rules: &R,
    p: PositionModel,
    w: World<B::State>,
    node: NodeType,
    alpha: int,
    beta: int,
    depth: int,
    ply: int,
) -> Option<Entry<B::State>> {
    if !(node is Root) && must_stop::<B>(w) || ply >= MAX_PLY || depth <= 0 || game_over(
        rules,
        p,
        node,
        ply,
    ) is Some {
        None
    } else {
        let b = p.board();
        let w1 = if node is Root {
            w
        } else {
            after_must_stop::<B>(w)
        };
        let w2 = w1.with_thread(entered(w1.t, node, ply));
        let w3 = if node is Root {
            w2
        } else {
            w2.with_state(B::after_node(w2.s))
        };
        let c = consulted::<R, B>(rules, b, w3, node, alpha, beta, depth, ply);
        let raw_eval = B::eval_of(c.w.s, b);
        let static_eval = static_eval_of::<B>(c.w.s, b);
        let improving = improves(c.w.t, ply, static_eval);
        let w4 = c.w.with_thread(c.w.t.with_evals(ply, raw_eval, static_eval));
        let (settled, w5) = if null_move_wanted::<B>(w4.t, node, beta, depth, ply, static_eval) {
            null_move_tried::<R, B>(rules, p, w4, alpha, beta, depth, ply)
        } else {
            (None, w4)
        };
        if c.settled is Some || futile::<B>(node, beta, depth, static_eval, improving)
            || settled is Some {
            None
        } else {
            Some(Entry { w: w5, tt_move: c.tt_move, raw_eval, improving })
        }
    }
}

/// A search that comes to its moves has the outcome of searching them. It comes
/// there without a recorded move, unless it has been stopped.
pub proof fn a_search_comes_to_its_moves_without_a_best_one<R: Rules, B: Backend>(
    rules: &R,
    p: PositionModel,
    w: World<B::State>,
    node: NodeType,
    alpha: int,
    beta: int,
    depth: int,
    ply: int,
)
    requires
        0 <= ply,
        alpha < beta,
        node.pv() || alpha == beta - 1,
        w.t.stack.len() == MAX_PLY + 1,
    ensures
        entry_to_moves::<R, B>(rules, p, w, node, alpha, beta, depth, ply) matches Some(e) ==> {
            &&& searched::<R, B>(rules, p, w, node, alpha, beta, depth, ply) == all_searched::<
                R,
                B,
            >(
                rules,
                p,
                e.w,
                node,
                alpha,
                beta,
                depth,
                ply,
                e.tt_move,
                e.raw_eval,
                e.improving,
            )
            &&& e.w.t.stack.len() == MAX_PLY + 1
            &&& e.w.t.stop || e.w.t.stack[ply].mv is None
            &&& node is Root ==> e.w.t.stop == w.t.stop
        },
        // Otherwise a move is recorded only with a score from beta on.
        entry_to_moves::<R, B>(rules, p, w, node, alpha, beta, depth, ply) is None && depth > 0
            && ply <= MAX_PLY ==> ({
            let o = searched::<R, B>(rules, p, w, node, alpha, beta, depth, ply);
            o.w.t.stop || o.w.t.stack[ply].mv is None || o.score >= beta
        }),
    decreases reach(depth), 1nat,
{
    reveal(searched);
    reveal(node_searched);
    if depth > 0 && ply <= MAX_PLY && !(!(node is Root) && must_stop::<B>(w)) {
        let b = p.board();
        let w1 = if node is Root {
            w
        } else {
            after_must_stop::<B>(w)
        };
        let w2 = w1.with_thread(entered(w1.t, node, ply));
        let w3 = if node is Root {
            w2
        } else {
            w2.with_state(B::after_node(w2.s))
        };
        let c = consulted::<R, B>(rules, b, w3, node, alpha, beta, depth, ply);
        lemma_consulting_keeps::<R, B>(rules, p, w3, node, alpha, beta, depth, ply);
        let raw_eval = B::eval_of(c.w.s, b);
        let static_eval = static_eval_of::<B>(c.w.s, b);
        let improving = improves(c.w.t, ply, static_eval);
        let w4 = c.w.with_thread(c.w.t.with_evals(ply, raw_eval, static_eval));
        node_unfolds::<R, B>(
            rules,
            p,
            w4,
            node,
            alpha,
            beta,
            depth,
            ply,
            c.tt_move,
            raw_eval,
            static_eval,
            improving,
        );
        if c.settled is None && null_move_wanted::<B>(
            w4.t,
            node,
            beta,
            depth,
            ply,
            static_eval,
        ) {
            lemma_null_move_keeps::<R, B>(rules, p, w4, alpha, beta, depth, ply);
            lemma_null_move_records_nothing::<R, B>(rules, p, w4, alpha, beta, depth, ply);
        }
    }
}

/// A null move that does not settle its node leaves no recorded move there, unless
/// it has been stopped; one that does settle it scores at least beta.
proof fn lemma_null_move_records_nothing<R: Rules, B: Backend>(
    rules: &R,
    p: PositionModel,
    w: World<B::State>,
    alpha: int,
    beta: int,
    depth: int,
    ply: int,
)
    requires
        0 <= ply,
        depth >= 4,
        ply <= MAX_PLY,
        alpha == beta - 1,
        w.t.stack.len() == MAX_PLY + 1,
        w.t.stack[ply].mv is None,
    ensures
        ({
            let (settled, w2) = null_move_tried::<R, B>(rules, p, w, alpha, beta, depth, ply);
            &&& settled is None ==> w2.t.stop || w2.t.stack[ply].mv is None
            &&& settled matches Some(score) ==> w2.t.stop || score >= beta
        }),
    decreases reach(depth), 0nat,
{
    reveal(null_move_tried);
    reveal(searched);
    let passed = searched::<R, B>(
        rules,
        p.after_null(rules),
        w,
        NodeType::NonPV,
        -beta,
        -beta + 1,
        depth - 3,
        ply + 1,
    );
    search_keeps_earlier_plies::<R, B>(
        rules,
        p.after_null(rules),
        w,
        NodeType::NonPV,
        -beta,
        -beta + 1,
        depth - 3,
        ply + 1,
    );
    assert(passed.w.t.stack[ply] == w.t.stack[ply]);
    let marked = passed.w.with_thread(passed.w.t.with_nmr_ply(Some(ply as usize)));
    a_recorded_move_beats_alpha::<R, B>(
        rules,
        p,
        marked,
        NodeType::NonPV,
        alpha,
        beta,
        depth / 2,
        ply,
    );
}

/// A search that ends without a stop records a best move only if its score exceeds
/// alpha.
pub proof fn a_recorded_move_beats_alpha<R: Rules, B: Backend>(
    rules: &R,
    p: PositionModel,
    w: World<B::State>,
    node: NodeType,
    alpha: int,
    beta: int,
    depth: int,
    ply: int,
)
    requires
        0 <= ply <= MAX_PLY,
        alpha < beta,
        node.pv() || alpha == beta - 1,
        w.t.stack.len() == MAX_PLY + 1,
    ensures
        ({
            let o = searched::<R, B>(rules, p, w, node, alpha, beta, depth, ply);
            o.w.t.stop || o.w.t.stack[ply].mv is None || o.score > alpha
        }),
    decreases reach(depth), 2nat,
{
    if depth > 0 {
        a_search_comes_to_its_moves_without_a_best_one::<R, B>(
            rules,
            p,
            w,
            node,
            alpha,
            beta,
            depth,
            ply,
        );
        if let Some(e) = entry_to_moves::<R, B>(rules, p, w, node, alpha, beta, depth, ply) {
            lemma_all_report::<R, B>(
                rules,
                p,
                e.w,
                node,
                alpha,
                beta,
                depth,
                ply,
                e.tt_move,
                e.raw_eval,
                e.improving,
            );
        }
    } else {
        reveal(searched);
        let w1 = if node is Root {
            w
        } else {
            after_must_stop::<B>(w)
        };
        let w2 = w1.with_thread(entered(w1.t, node, ply));
        lemma_quiescence_records::<R, B>(rules, p, w2, node, alpha, beta, ply);
    }
}

/// A search that comes to its moves, ends without a stop and had a legal move
/// stores last what it found, with the bound that its window calls for, and the
/// recorded move is the stored one.
pub proof fn a_search_stores_what_it_found<R: Rules, B: Backend>(
    rules: &R,
    p: PositionModel,
    w: World<B::State>,
    node: NodeType,
    alpha: int,
    beta: int,
    depth: int,
    ply: int,
)
    requires
        0 <= ply,
        alpha < beta,
        node.pv() || alpha == beta - 1,
        w.t.stack.len() == MAX_PLY + 1,
        entry_to_moves::<R, B>(rules, p, w, node, alpha, beta, depth, ply) is Some,
    ensures
        ({
            let e = entry_to_moves::<R, B>(rules, p, w, node, alpha, beta, depth, ply)->0;
            let end = moves_searched::<R, B>(
                rules,
                p,
                e.w,
                fresh_tally(e.tt_move, alpha, depth),
                node,
                beta,
                depth,
                ply,
                e.improving,
            );
            let o = searched::<R, B>(rules, p, w, node, alpha, beta, depth, ply);
            !end.stopped && end.tally.legal_moves > 0 ==> reported::<B>(
                p,
                end.tally,
                o.score,
                o.w,
                alpha,
                beta,
                depth,
                ply,
            )
        }),
{
    a_search_comes_to_its_moves_without_a_best_one::<R, B>(
        rules,
        p,
        w,
        node,
        alpha,
        beta,
        depth,
        ply,
    );
    let e = entry_to_moves::<R, B>(rules, p, w, node, alpha, beta, depth, ply)->0;
    lemma_all_report::<R, B>(
        rules,
        p,
        e.w,
        node,
        alpha,
        beta,
        depth,
        ply,
        e.tt_move,
        e.raw_eval,
        e.improving,
    );
}

/// A root search that returns stopped scores nothing, if it was not stopped before
/// or there was something to search.
pub proof fn a_stopped_root_scores_nothing<R: Rules, B: Backend>(
    rules: &R,
    p: PositionModel,
    w: World<B::State>,
    alpha: int,
    beta: int,
    depth: int,
    ply: int,
)
    requires
        0 <= ply,
        depth > 0,
        alpha < beta,
        w.t.stack.len() == MAX_PLY + 1,
        !w.t.stop || ply <= MAX_PLY && game_over(
            rules,
            p,
            NodeType::Root,
            ply,
        ) is None && has_moves(rules, p.board()),
    ensures
        ({
            let o = searched::<R, B>(rules, p, w, NodeType::Root, alpha, beta, depth, ply);
            o.w.t.stop ==> o.score == 0
        }),
{
    let node = NodeType::Root;
    a_search_comes_to_its_moves_without_a_best_one::<R, B>(
        rules,
        p,
        w,
        node,
        alpha,
        beta,
        depth,
        ply,
    );
    match entry_to_moves::<R, B>(rules, p, w, node, alpha, beta, depth, ply) {
        Some(e) => {
            lemma_all_report::<R, B>(
                rules,
                p,
                e.w,
                node,
                alpha,
                beta,
                depth,
                ply,
                e.tt_move,
                e.raw_eval,
                e.improving,
            );
        },
        None => {
            reveal(searched);
            if ply <= MAX_PLY {
                reveal(node_searched);
                let w2 = w.with_thread(entered(w.t, node, ply));
                lemma_consulting_keeps::<R, B>(rules, p, w2, node, alpha, beta, depth, ply);
            }
        },
    }
}

// The quiescence search.

/// Whether a ply's line starts with its recorded move, or is empty if there is
/// none.
pub open spec fn heads_its_line(t: ThreadModel, ply: int) -> bool {
    match t.stack[ply].mv {
        Some(mv) => t.stack[ply].pv.len() > 0 && t.stack[ply].pv[0] == mv,
        None => t.stack[ply].pv.len() == 0,
    }
}

/// What a quiescence node records, given how high a move has to score: a legal
/// noisy move exactly if its score is higher, and on the principal variation a line
/// that starts with it.
pub open spec fn quietly_recorded<R: Rules>(
    rules: &R,
    p: PositionModel,
    t: ThreadModel,
    node: NodeType,
    score: int,
    bar: int,
    ply: int,
) -> bool {
    &&& t.stack[ply].mv is Some <==> score > bar
    &&& t.stack[ply].mv matches Some(mv) ==> legal(rules, p.board(), mv) && mv.flag.noisy()
    &&& node.pv() ==> heads_its_line(t, ply)
}

/// Whether a picker without quiet moves has only noisy ones to hand out.
pub open spec fn noisy_only<R: Rules>(
    rules: &R,
    b: BoardModel,
    pk: PickerModel,
    list: Seq<ScoredMove>,
) -> bool {
    &&& pk.skip_quiets
    &&& 0 <= pk.cursor
    &&& pk.tt_move matches Some(mv) ==> mv.flag.noisy()
    &&& forall|i: int|
        0 <= i < list.len() ==> rules.moves(b, MoveFilter::Noisy).contains(
            (#[trigger] list[i]).0,
        )
}

proof fn lemma_noisy_pick<R: Rules, B: Backend>(
    rules: &R,
    s: B::State,
    p: PositionModel,
    pk: PickerModel,
    list: Seq<ScoredMove>,
)
    requires
        noisy_only(rules, p.board(), pk, list),
    ensures
        ({
            let turn = pk.pick::<R, B>(rules, s, p, list);
            &&& noisy_only(rules, p.board(), turn.picker, turn.list)
            &&& turn.mv matches Some(mv) ==> legal(rules, p.board(), mv) && mv.flag.noisy()
        }),
{
    reveal(PickerModel::pick);
    let b = p.board();
    let noisies = ranked_noisies::<R, B>(rules, s, p, pk.tt_move);
    assert forall|i: int| 0 <= i < noisies.len() implies rules.moves(
        b,
        MoveFilter::Noisy,
    ).contains((#[trigger] noisies[i]).0) by {
        lemma_ranked_members::<R, B>(
            MoveFilter::Noisy,
            rules,
            s,
            p,
            pk.tt_move,
            noisies[i].0,
        );
    }
    assert forall|i: int| 0 <= i < (list + noisies).len() implies rules.moves(
        b,
        MoveFilter::Noisy,
    ).contains((#[trigger] (list + noisies)[i]).0) by {
        if i < list.len() {
            assert((list + noisies)[i] == list[i]);
        } else {
            assert((list + noisies)[i] == noisies[i - list.len()]);
        }
    }
    picks_are_legal_and_run_out::<R, B>(rules, s, p, pk, list);
    let turn = pk.pick::<R, B>(rules, s, p, list);
    if let Some(mv) = turn.mv {
        if !(pk.stage is TTMove && pk.tt_move == Some(mv)) {
            lemma_next_other(list, pk.tt_move, pk.cursor);
            lemma_next_other(list + noisies, pk.tt_move, pk.cursor);
            assert(rules.moves(b, MoveFilter::Noisy).contains(mv));
            rules.moves_are_of_their_kind(b, MoveFilter::Noisy, mv);
        }
    }
}

proof fn lemma_noisies_record<R: Rules, B: Backend>(
    rules: &R,
    p: PositionModel,
    w: World<B::State>,
    tally: QuietTally,
    node: NodeType,
    beta: int,
    ply: int,
    bar: int,
)
    requires
        0 <= ply < MAX_PLY,
        w.t.stack.len() == MAX_PLY + 1,
        noisy_only(rules, p.board(), tally.picker, tally.list),
        quietly_recorded(rules, p, w.t, node, tally.alpha, bar, ply),
        bar <= tally.alpha,
        w.t.stack[ply].mv is Some ==> tally.best_score == tally.alpha,
        w.t.stack[ply].mv is None ==> tally.best_score <= bar,
    ensures
        ({
            let r = noisies_searched::<R, B>(rules, p, w, tally, node, beta, ply);
            &&& r.0 matches Some(score) ==> quietly_recorded(
                rules,
                p,
                r.1.t,
                node,
                score,
                bar,
                ply,
            )
            &&& r.0 is None ==> r.1.t.stop
        }),
    decreases tally.picker.stage.ahead(), tally.list.len() - tally.picker.cursor,
{
    reveal(noisies_searched);
    reveal(noisy_searched);
    turns_run_out::<R, B>(rules, w.s, p, tally.picker, tally.list);
    lemma_noisy_pick::<R, B>(rules, w.s, p, tally.picker, tally.list);
    let turn = tally.picker.pick::<R, B>(rules, w.s, p, tally.list);
    let next = tally.after_turn(turn);
    if turn.mv is Some {
        let mv = turn.mv->0;
        let known = next.with_safety(rules, p.board(), mv);
        if next.refutes(mv) {
            lemma_noisies_record::<R, B>(rules, p, w, next, node, beta, ply, bar);
        } else if known.late::<B>(mv) || known.crowded::<B>(mv, node) {
            lemma_noisies_record::<R, B>(rules, p, w, known, node, beta, ply, bar);
        } else {
            let counted = known.counting(mv);
            lemma_noisy_keeps::<R, B>(rules, p, w, counted, node, beta, ply, mv);
            let found = noisy_searched::<R, B>(rules, p, w, counted, node, beta, ply, mv);
            assert(found.w.t.stack[ply] == w.t.stack[ply]);
            let scored = counted.with_reply(mv, found.w.t.stack[ply + 1].mv).with_score(
                found.score,
            );
            let after = if found.score > counted.alpha {
                found.w.with_thread(raised(found.w.t, mv, node, ply))
            } else {
                found.w
            };
            if found.score > counted.alpha {
                assert(after.t.stack[ply].mv == Some(mv));
            }
            assert(quietly_recorded(rules, p, after.t, node, scored.alpha, bar, ply));
            lemma_noisies_record::<R, B>(rules, p, after, scored, node, beta, ply, bar);
        }
    }
}

/// The state in which a quiescence node looks at its evaluation.
pub open spec fn looked_up<B: Backend>(w: World<B::State>, b: BoardModel) -> B::State {
    B::after_probe(after_must_stop::<B>(w.with_state(B::after_node(w.s))).s, b.hash)
}

/// Whether a quiescence search gets past standing pat: the game goes on, and
/// neither the table nor the evaluation settles the node.
pub open spec fn past_standing_pat<R: Rules, B: Backend>(
    rules: &R,
    p: PositionModel,
    w: World<B::State>,
    alpha: int,
    beta: int,
    ply: int,
) -> bool {
    let b = p.board();
    let s = after_must_stop::<B>(w.with_state(B::after_node(w.s))).s;
    &&& ply < MAX_PLY
    &&& game_over(rules, p, NodeType::NonPV, ply) is None
    &&& B::entry(s, b.hash) matches Some(e) ==> !e.flag.settles(e.score@, alpha, beta)
    &&& static_eval_of::<B>(looked_up::<B>(w, b), b) < beta
}

/// A quiescence search that gets past standing pat and ends without a stop records
/// a best move exactly if its score exceeds both alpha and the evaluation. That
/// move is legal and noisy, and on the principal variation it heads the line, which
/// is empty if there is no such move.
pub proof fn a_quiescence_search_records_what_beats_standing_pat<R: Rules, B: Backend>(
    rules: &R,
    p: PositionModel,
    w: World<B::State>,
    node: NodeType,
    alpha: int,
    beta: int,
    ply: int,
)
    requires
        0 <= ply,
        w.t.stack.len() == MAX_PLY + 1,
        past_standing_pat::<R, B>(rules, p, w, alpha, beta, ply),
    ensures
        ({
            let o = quiesced::<R, B>(rules, p, w, node, alpha, beta, ply);
            let static_eval = static_eval_of::<B>(looked_up::<B>(w, p.board()), p.board());
            let bar = if static_eval > alpha {
                static_eval
            } else {
                alpha
            };
            o.w.t.stop || quietly_recorded(rules, p, o.w.t, node, o.score, bar, ply)
        }),
{
    reveal(quiesced);
    reveal(noisies_searched);
    let b = p.board();
    let w1 = after_must_stop::<B>(w.with_state(B::after_node(w.s)));
    let w2 = w1.with_thread(entered(w1.t, node, ply)).with_state(B::after_probe(w1.s, b.hash));
    let found = B::entry(w1.s, b.hash);
    let e = found->0;
    let tt_move = if found is Some && e.best_move is Some && e.best_move->0.flag.noisy() {
        e.best_move
    } else {
        None
    };
    let static_eval = static_eval_of::<B>(w2.s, b);
    let bar = if static_eval > alpha {
        static_eval
    } else {
        alpha
    };
    lemma_noisies_record::<R, B>(
        rules,
        p,
        w2.with_thread(w2.t.with_evals(ply, B::eval_of(w2.s, b), static_eval)),
        fresh_quiet_tally(tt_move, bar, static_eval),
        node,
        beta,
        ply,
        bar,
    );
}

proof fn lemma_quiescence_records<R: Rules, B: Backend>(
    rules: &R,
    p: PositionModel,
    w: World<B::State>,
    node: NodeType,
    alpha: int,
    beta: int,
    ply: int,
)
    requires
        0 <= ply,
        w.t.stack.len() == MAX_PLY + 1,
        ply <= MAX_PLY,
        w.t.stack[ply].mv is None,
    ensures
        ({
            let o = quiesced::<R, B>(rules, p, w, node, alpha, beta, ply);
            o.w.t.stop || o.w.t.stack[ply].mv is None || o.score > alpha
        }),
{
    if past_standing_pat::<R, B>(rules, p, w, alpha, beta, ply) {
        a_quiescence_search_records_what_beats_standing_pat::<R, B>(
            rules,
            p,
            w,
            node,
            alpha,
            beta,
            ply,
        );
    } else {
        reveal(quiesced);
    }
}

} // verus!
