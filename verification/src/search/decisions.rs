//! What settles a node, and what a node makes of the moves it searches.

use crate::board::board::BoardModel;
use crate::common::moves::Move;
use crate::position::PositionModel;
use crate::rules::{legal, MoveFilter, Rules};
use crate::score::{MATE, MATE_BOUND};
use crate::search::backend::{Backend, TTEntry, TTFlag};
use crate::search::model::{
    concluded, consulted, consulted_duckless, entered, fresh_quiet_tally, fresh_tally,
    improves, move_searched, moves_searched, node_searched, noisies_searched, null_move_tried,
    null_move_wanted, quiesced, raised, searched, static_eval_of, weighed, NodeType, QuietTally,
    Searched, Step, Tally, World,
};
use crate::search::move_picker::Turn;
use crate::search::negamax::{final_score, kept_tame};
use crate::search::thread::{PlyModel, ThreadModel};
use crate::search::MAX_PLY;
use vstd::prelude::*;

verus! {

// Stopping and counting.

/// The surroundings after they were asked, by a thread that has not stopped, whether
/// to stop.
pub open spec fn asked<B: Backend>(w: World<B::State>) -> B::State {
    if w.t.stop {
        w.s
    } else {
        B::after_stopping(w.s)
    }
}

/// A search that has stopped, or is told to, scores nothing, changes nothing of the
/// thread but that it has stopped, and passes the stop on. The root goes on all the
/// same.
pub proof fn a_stop_is_obeyed_and_passed_on<R: Rules, B: Backend>(
    rules: &R,
    p: PositionModel,
    w: World<B::State>,
    node: NodeType,
    alpha: int,
    beta: int,
    depth: int,
    ply: int,
)
    requires
        w.t.stop || B::stopping(w.s),
    ensures
        !(node is Root) ==> {
            let o = searched::<R, B>(rules, p, w, node, alpha, beta, depth, ply);
            &&& o.score == 0
            &&& o.w.t == (ThreadModel { stop: true, ..w.t })
            &&& o.w.s == B::after_set_stop(asked::<B>(w), true)
        },
        forall|before: World<B::State>|
            before.t == w.t && #[trigger] B::after_node(before.s) == w.s ==> {
                let o = quiesced::<R, B>(rules, p, before, node, alpha, beta, ply);
                &&& o.score == 0
                &&& o.w.t == (ThreadModel { stop: true, ..w.t })
                &&& o.w.s == B::after_set_stop(asked::<B>(w), true)
            },
{
    reveal(searched);
    reveal(quiesced);
    assert forall|before: World<B::State>|
        before.t == w.t && #[trigger] B::after_node(before.s) == w.s implies {
        let o = quiesced::<R, B>(rules, p, before, node, alpha, beta, ply);
        &&& o.score == 0
        &&& o.w.t == (ThreadModel { stop: true, ..w.t })
        &&& o.w.s == B::after_set_stop(asked::<B>(w), true)
    } by {
        assert(before.with_state(B::after_node(before.s)) == w);
    }
}

/// A thread that enters a ply: it has no best move there, on the principal variation
/// no line either, and it has been at least that deep. Nothing else changes.
pub proof fn entering_a_ply_clears_it(t: ThreadModel, node: NodeType, ply: int)
    requires
        0 <= ply < t.stack.len(),
    ensures
        ({
            let e = entered(t, node, ply);
            &&& e.stack.len() == t.stack.len()
            &&& e.stack[ply].mv is None
            &&& !(node is NonPV) ==> e.stack[ply].pv.len() == 0
            &&& node is NonPV ==> e.stack[ply].pv == t.stack[ply].pv
            &&& e.stack[ply].raw_eval == t.stack[ply].raw_eval && e.stack[ply].static_eval
                == t.stack[ply].static_eval
            &&& forall|i: int| 0 <= i < t.stack.len() && i != ply ==> #[trigger] e.stack[i]
                == t.stack[i]
            &&& e.sel_depth >= ply && e.sel_depth >= t.sel_depth && (e.sel_depth == ply
                || e.sel_depth == t.sel_depth)
            &&& e.stop == t.stop && e.nmr_ply == t.nmr_ply && e.id == t.id
        }),
{
}

/// A move that raises alpha is its ply's best move; on the principal variation it
/// heads the line, and the next ply's line follows. Nothing else changes.
pub proof fn a_best_move_heads_the_line(t: ThreadModel, mv: Move, node: NodeType, ply: int)
    requires
        0 <= ply,
        ply + 1 < t.stack.len(),
    ensures
        ({
            let r = raised(t, mv, node, ply);
            &&& r.stack.len() == t.stack.len()
            &&& r.stack[ply].mv == Some(mv)
            &&& !(node is NonPV) ==> r.stack[ply].pv.len() == t.stack[ply + 1].pv.len() + 1
                && r.stack[ply].pv[0] == mv && r.stack[ply].pv.drop_first() =~= t.stack[ply + 1].pv
            &&& node is NonPV ==> r.stack[ply].pv == t.stack[ply].pv
            &&& forall|i: int| 0 <= i < t.stack.len() && i != ply ==> #[trigger] r.stack[i]
                == t.stack[i]
            &&& r.stop == t.stop && r.nmr_ply == t.nmr_ply && r.id == t.id && r.sel_depth
                == t.sel_depth
        }),
{
    assert((seq![mv] + t.stack[ply + 1].pv).drop_first() =~= t.stack[ply + 1].pv);
}

/// A finished game is scored by how it ended: a lost king the worse the sooner, a draw
/// as nothing. The root is not drawn by repetition. A node below the root is counted,
/// the root is not, and nothing but that and the question whether to stop reaches the
/// surroundings.
pub proof fn a_finished_game_is_scored_at_once<R: Rules, B: Backend>(
    rules: &R,
    p: PositionModel,
    w: World<B::State>,
    node: NodeType,
    alpha: int,
    beta: int,
    depth: int,
    ply: int,
)
    requires
        0 <= ply < MAX_PLY,
        !w.t.stop,
        final_score(rules, p, node is Root, ply) is Some,
    ensures
        depth > 0 && (node is Root || !B::stopping(w.s)) ==> {
            let o = searched::<R, B>(rules, p, w, node, alpha, beta, depth, ply);
            &&& final_score(rules, p, node is Root, ply) == Some(o.score)
            &&& o.w.s == if node is Root {
                w.s
            } else {
                B::after_node(B::after_stopping(w.s))
            }
        },
        !(node is Root) && !B::stopping(B::after_node(w.s)) ==> {
            let o = quiesced::<R, B>(rules, p, w, node, alpha, beta, ply);
            &&& final_score(rules, p, false, ply) == Some(o.score)
            &&& o.w.s == B::after_stopping(B::after_node(w.s))
        },
{
    reveal(searched);
    reveal(quiesced);
}

// The table.

/// Whether a stored score tells a search with this window its result: an exact score
/// does, a lower bound from beta on, an upper bound down from alpha.
pub open spec fn decides(e: TTEntry, alpha: int, beta: int) -> bool {
    e.flag is Exact || e.flag is Lower && e.score@ >= beta || e.flag is Upper && e.score@ <= alpha
}

/// Whether the entry of the board without its duck can be used: it is a lower bound
/// that announces no mate, and its move is legal here.
pub open spec fn usable<R: Rules>(rules: &R, b: BoardModel, e: TTEntry) -> bool {
    &&& e.flag is Lower
    &&& -MATE_BOUND <= e.score@ <= MATE_BOUND
    &&& e.best_move is Some
    &&& legal(rules, b, e.best_move->0)
}

/// What the table settles and what it only suggests. Below the root an entry that is
/// deep enough and decides the window settles the node with its score. Else, off the
/// principal variation, a usable entry of the board without its duck does, if it is
/// deep enough and reaches beta. Else the entry's move is tried first, or without one
/// that of a usable entry of the board without its duck.
pub proof fn the_table_settles_or_suggests<R: Rules, B: Backend>(
    rules: &R,
    b: BoardModel,
    w: World<B::State>,
    node: NodeType,
    alpha: int,
    beta: int,
    depth: int,
    ply: int,
)
    requires
        0 <= ply < w.t.stack.len(),
    ensures
        ({
            let c = consulted::<R, B>(rules, b, w, node, alpha, beta, depth, ply);
            let s1 = B::after_probe(w.s, b.hash);
            let own = B::entry(w.s, b.hash);
            let other = B::entry(s1, b.duckless_key());
            let settled_by_own = !(node is Root) && own is Some && own->0.depth >= depth && decides(
                own->0,
                alpha,
                beta,
            );
            let settled_by_other = !settled_by_own && node is NonPV && other is Some && usable(
                rules,
                b,
                other->0,
            ) && other->0.depth >= depth && other->0.score@ >= beta;
            let move_of_own = if own is Some {
                own->0.best_move
            } else {
                None
            };
            &&& c.settled is Some <==> settled_by_own || settled_by_other
            &&& settled_by_own ==> c.settled == Some(own->0.score@) && c.w.t == w.t && c.w.s == s1
            &&& settled_by_other ==> c.settled == Some(other->0.score@) && c.w.t.stack[ply].mv
                == other->0.best_move && c.w.t.stack[ply].pv == w.t.stack[ply].pv
            &&& c.settled is None ==> c.w.t == w.t && c.tt_move == if move_of_own is Some {
                move_of_own
            } else if other is Some && usable(rules, b, other->0) {
                other->0.best_move
            } else {
                None
            }
            &&& !settled_by_own ==> c.w.s == if node is NonPV || move_of_own is None {
                B::after_probe(s1, b.duckless_key())
            } else {
                s1
            }
        }),
{
    reveal(consulted);
    reveal(consulted_duckless);
}

/// Below the root, a table entry that is deep enough and decides the window is the
/// result of the search, whatever the moves.
pub proof fn a_deep_entry_is_the_result<R: Rules, B: Backend>(
    rules: &R,
    p: PositionModel,
    w: World<B::State>,
    node: NodeType,
    alpha: int,
    beta: int,
    depth: int,
    ply: int,
)
    requires
        !(node is Root),
        0 <= ply <= MAX_PLY,
        depth > 0,
        w.t.stack.len() == MAX_PLY + 1,
        !w.t.stop,
        !B::stopping(w.s),
        final_score(rules, p, false, ply) is None,
    ensures
        ({
            let o = searched::<R, B>(rules, p, w, node, alpha, beta, depth, ply);
            let own = B::entry(B::after_node(B::after_stopping(w.s)), p.board().hash);
            own is Some && own->0.depth >= depth && decides(own->0, alpha, beta) ==> o.score
                == own->0.score@
        }),
{
    reveal(searched);
    reveal(consulted);
}

/// A quiescence search takes the score of any table entry that decides the window,
/// however shallow. Else it stands pat on an evaluation from beta on. Else it tries
/// the noisy moves with the evaluation as its first score, the entry's move first if
/// that is noisy, and alpha raised to the evaluation.
pub proof fn a_quiescence_search_is_settled_in_turn<R: Rules, B: Backend>(
    rules: &R,
    p: PositionModel,
    w: World<B::State>,
    node: NodeType,
    alpha: int,
    beta: int,
    ply: int,
)
    requires
        0 <= ply < MAX_PLY,
        w.t.stack.len() == MAX_PLY + 1,
        !w.t.stop,
        !B::stopping(B::after_node(w.s)),
        final_score(rules, p, false, ply) is None,
    ensures
        ({
            let o = quiesced::<R, B>(rules, p, w, node, alpha, beta, ply);
            let b = p.board();
            let s1 = B::after_stopping(B::after_node(w.s));
            let s2 = B::after_probe(s1, b.hash);
            let own = B::entry(s1, b.hash);
            let stand = kept_tame(B::eval_of(s2, b) + B::corr_of(s2, b));
            let decided = own is Some && decides(own->0, alpha, beta);
            &&& decided ==> o.score == own->0.score@ && o.w.s == s2
            &&& !decided && stand >= beta ==> o.score == stand && o.w.s == s2
            &&& !decided && stand < beta ==> exists|t: ThreadModel, tally: QuietTally|
                #![trigger noisies_searched::<R, B>(rules, p, World { t, s: s2 }, tally, node, beta, ply)]
                {
                    let r = noisies_searched::<R, B>(
                        rules,
                        p,
                        World { t, s: s2 },
                        tally,
                        node,
                        beta,
                        ply,
                    );
                    &&& tally.best_score == stand
                    &&& tally.alpha == if stand > alpha {
                        stand
                    } else {
                        alpha
                    }
                    &&& tally.picker.skip_quiets
                    &&& tally.picker.tt_move == if own is Some && own->0.best_move is Some
                        && own->0.best_move->0.flag.noisy() {
                        own->0.best_move
                    } else {
                        None
                    }
                    &&& t.stack[ply].static_eval == Some(stand) && t.stack[ply].raw_eval == Some(
                        B::eval_of(s2, b),
                    )
                    &&& o.w == r.1
                    &&& o.score == if r.0 is Some {
                        r.0->0
                    } else {
                        0
                    }
                }
        }),
{
    reveal(quiesced);
    reveal(noisies_searched);
    let b = p.board();
    let s1 = B::after_stopping(B::after_node(w.s));
    let s2 = B::after_probe(s1, b.hash);
    let own = B::entry(s1, b.hash);
    let stand = kept_tame(B::eval_of(s2, b) + B::corr_of(s2, b));
    assert(static_eval_of::<B>(s2, b) == stand);
    let t = entered(w.t, node, ply).with_evals(ply, B::eval_of(s2, b), stand);
    let tt_move = if own is Some && own->0.best_move is Some && own->0.best_move->0.flag.noisy() {
        own->0.best_move
    } else {
        None
    };
    let tally = fresh_quiet_tally(
        tt_move,
        if stand > alpha {
            stand
        } else {
            alpha
        },
        stand,
    );
    let r = noisies_searched::<R, B>(rules, p, World { t, s: s2 }, tally, node, beta, ply);
    assert(r == noisies_searched::<R, B>(rules, p, World { t, s: s2 }, tally, node, beta, ply));
}

// The evaluation.

/// A side improves if its evaluation exceeds that of two plies ago; without one, that
/// of four plies ago; without either it counts as improving. So a better evaluation
/// never improves less.
pub proof fn improving_goes_by_the_last_own_evaluation(
    t: ThreadModel,
    ply: int,
    eval: int,
    better: int,
)
    requires
        eval <= better,
    ensures
        improves(t, ply, eval) ==> improves(t, ply, better),
        ply >= 2 && t.stack[ply - 2].static_eval is Some ==> (improves(t, ply, eval) <==> eval
            > t.stack[ply - 2].static_eval->0),
        ply >= 4 && t.stack[ply - 2].static_eval is None && t.stack[ply - 4].static_eval is Some
            ==> (improves(t, ply, eval) <==> eval > t.stack[ply - 4].static_eval->0),
        ply < 2 || t.stack[ply - 2].static_eval is None && (ply < 4 || t.stack[ply
            - 4].static_eval is None) ==> improves(t, ply, eval),
{
}

/// Off the principal variation and within the depth for it, an evaluation that stays
/// above beta by the margin is the result, and no move is tried. Nowhere else.
pub proof fn a_futile_node_scores_its_evaluation<R: Rules, B: Backend>(
    rules: &R,
    p: PositionModel,
    w: World<B::State>,
    node: NodeType,
    alpha: int,
    beta: int,
    depth: int,
    ply: int,
)
    requires
        0 <= ply <= MAX_PLY,
        depth > 0,
        w.t.stack.len() == MAX_PLY + 1,
        node is Root || !w.t.stop && !B::stopping(w.s),
        final_score(rules, p, node is Root, ply) is None,
    ensures
        ({
            let o = searched::<R, B>(rules, p, w, node, alpha, beta, depth, ply);
            let b = p.board();
            let s = if node is Root {
                w.s
            } else {
                B::after_node(B::after_stopping(w.s))
            };
            let w1 = World { t: entered(w.t, node, ply), s };
            let c = consulted::<R, B>(rules, b, w1, node, alpha, beta, depth, ply);
            let raw = B::eval_of(c.w.s, b);
            let stand = kept_tame(raw + B::corr_of(c.w.s, b));
            let improving = improves(c.w.t, ply, stand);
            let w2 = World {
                t: c.w.t.with_ply(
                    ply,
                    PlyModel {
                        raw_eval: Some(raw),
                        static_eval: Some(stand),
                        ..c.w.t.stack[ply]
                    },
                ),
                s: c.w.s,
            };
            let far_above = node is NonPV && depth <= B::rfp_reach() && stand - B::rfp_slack(
                depth,
                improving,
            ) >= beta;
            &&& c.settled is Some ==> o.score == c.settled->0 && o.w == c.w
            &&& c.settled is None && far_above ==> o.score == stand && o.w == w2
            &&& c.settled is None && !far_above ==> o == node_searched::<R, B>(
                rules,
                p,
                w2,
                node,
                alpha,
                beta,
                depth,
                ply,
                c.tt_move,
                raw,
                stand,
                improving,
            )
        }),
{
    reveal(searched);
    reveal(node_searched);
}

// The null move.

/// A null move is tried off the principal variation, from depth four on, not where
/// one is being confirmed, only after a move of the opponent that was the best there,
/// and only if the evaluation exceeds beta by the margin.
pub proof fn when_a_null_move_is_tried<B: Backend>(
    t: ThreadModel,
    node: NodeType,
    beta: int,
    depth: int,
    ply: int,
    static_eval: int,
)
    requires
        0 <= ply <= MAX_PLY,
    ensures
        null_move_wanted::<B>(t, node, beta, depth, ply, static_eval) <==> {
            &&& node is NonPV
            &&& depth >= 4
            &&& t.nmr_ply is None || t.nmr_ply->0 != ply
            &&& t.stack[ply - 1].mv is Some
            &&& static_eval - B::nmr_slack() >= beta
        },
{
}

/// A null move settles a node only with a score from beta on. Within the confirmation
/// of another one that is the opponent's score after it, negated, from a search three
/// plies shallower. Elsewhere it is the score of the node itself, searched to half the
/// depth with no null move at its ply; after that no confirmation is under way.
pub proof fn what_a_null_move_settles<R: Rules, B: Backend>(
    rules: &R,
    p: PositionModel,
    w: World<B::State>,
    alpha: int,
    beta: int,
    depth: int,
    ply: int,
)
    requires
        depth >= 4,
    ensures
        ({
            let r = null_move_tried::<R, B>(rules, p, w, alpha, beta, depth, ply);
            let passed = searched::<R, B>(
                rules,
                p.after_null(rules),
                w,
                NodeType::NonPV,
                -beta,
                1 - beta,
                depth - 3,
                ply + 1,
            );
            let confirmed = searched::<R, B>(
                rules,
                p,
                World {
                    t: ThreadModel { nmr_ply: Some(ply as usize), ..passed.w.t },
                    s: passed.w.s,
                },
                NodeType::NonPV,
                alpha,
                beta,
                depth / 2,
                ply,
            );
            let high = passed.score <= -beta;
            let confirming = passed.w.t.nmr_ply is Some;
            &&& passed.w.t.stop ==> r.0 == Some(0int) && r.1 == passed.w
            &&& !passed.w.t.stop && !high ==> r.0 is None && r.1 == passed.w
            &&& !passed.w.t.stop && high && confirming ==> r.0 == Some(-passed.score) && r.1
                == passed.w
            &&& !passed.w.t.stop && high && !confirming ==> {
                &&& r.0 is Some <==> confirmed.score >= beta
                &&& r.0 is Some ==> r.0->0 == confirmed.score
                &&& r.1.t == (ThreadModel { nmr_ply: None, ..confirmed.w.t })
                &&& r.1.s == confirmed.w.s
            }
            &&& !passed.w.t.stop && r.0 is Some ==> r.0->0 >= beta
        }),
{
    reveal(null_move_tried);
    reveal(searched);
}

/// At the last ply no move is followed up: a side without a move wins, else a stop is
/// obeyed, else the evaluation is the score.
pub proof fn the_last_ply_is_settled_without_its_moves<R: Rules, B: Backend>(
    rules: &R,
    p: PositionModel,
    w: World<B::State>,
    node: NodeType,
    alpha: int,
    beta: int,
    depth: int,
    tt_move: Option<Move>,
    raw_eval: int,
    static_eval: int,
    improving: bool,
)
    requires
        depth > 0,
        !null_move_wanted::<B>(w.t, node, beta, depth, MAX_PLY as int, static_eval),
    ensures
        ({
            let o = node_searched::<R, B>(
                rules,
                p,
                w,
                node,
                alpha,
                beta,
                depth,
                MAX_PLY as int,
                tt_move,
                raw_eval,
                static_eval,
                improving,
            );
            let moves = rules.moves(p.board(), MoveFilter::Noisy).len() + rules.moves(
                p.board(),
                MoveFilter::Quiet,
            ).len();
            let stops = w.t.stop || B::stopping(w.s);
            &&& moves == 0 ==> o.score == MATE - MAX_PLY && o.w == w
            &&& moves > 0 && stops ==> o.score == 0 && o.w.t == (ThreadModel { stop: true, ..w.t })
                && o.w.s == B::after_set_stop(asked::<B>(w), true)
            &&& moves > 0 && !stops ==> o.score == static_eval && o.w.t == w.t && o.w.s
                == B::after_stopping(w.s)
        }),
{
    reveal(node_searched);
}

/// Where no null move is wanted, or the one that was tried does not settle the node,
/// the moves do, after what it left behind; else its score is the node's.
pub proof fn a_node_tries_a_null_move_then_its_moves<R: Rules, B: Backend>(
    rules: &R,
    p: PositionModel,
    w: World<B::State>,
    node: NodeType,
    alpha: int,
    beta: int,
    depth: int,
    ply: int,
    tt_move: Option<Move>,
    raw_eval: int,
    static_eval: int,
    improving: bool,
)
    requires
        depth > 0,
        0 <= ply < MAX_PLY,
    ensures
        ({
            let o = node_searched::<R, B>(
                rules,
                p,
                w,
                node,
                alpha,
                beta,
                depth,
                ply,
                tt_move,
                raw_eval,
                static_eval,
                improving,
            );
            let tried = null_move_tried::<R, B>(rules, p, w, alpha, beta, depth, ply);
            let wanted = null_move_wanted::<B>(w.t, node, beta, depth, ply, static_eval);
            let w1 = if wanted {
                tried.1
            } else {
                w
            };
            let fresh = fresh_tally(tt_move, alpha, depth);
            let end = moves_searched::<R, B>(
                rules,
                p,
                w1,
                fresh,
                node,
                beta,
                depth,
                ply,
                improving,
            );
            if wanted && tried.0 is Some {
                tried.0 == Some(o.score) && o.w == tried.1
            } else if end.stopped {
                o.score == 0 && o.w == end.w
            } else {
                o == concluded::<B>(p, end.tally, end.w, depth, ply, raw_eval)
            }
        }),
{
    crate::search::model::node_unfolds::<R, B>(
        rules,
        p,
        w,
        node,
        alpha,
        beta,
        depth,
        ply,
        tt_move,
        raw_eval,
        static_eval,
        improving,
    );
    reveal(crate::search::model::all_searched);
    reveal(moves_searched);
}

// The moves.

/// How a move is searched. One that gives the king away is lost in two plies, without
/// a search. The first move on the principal variation gets the whole window. Any
/// other gets a window of one above alpha, one ply shallower still if it is quiet, the
/// depth is at least three and seven moves have been searched; on the principal
/// variation one that exceeds alpha is searched again with the whole window and depth.
pub proof fn how_a_move_is_searched<R: Rules, B: Backend>(
    rules: &R,
    p: PositionModel,
    w: World<B::State>,
    tally: Tally,
    node: NodeType,
    beta: int,
    depth: int,
    ply: int,
    mv: Move,
)
    requires
        depth > 0,
        0 <= ply < MAX_PLY,
        w.t.stack.len() == MAX_PLY + 1,
    ensures
        ({
            let found = move_searched::<R, B>(rules, p, w, tally, node, beta, depth, ply, mv);
            let after = p.after_move(rules, mv);
            let lost = !tally.safe(mv).contains(mv.duck) && rules.played(p.board(), mv).hmc < 100
                && !rules.repeated(after);
            let less: int = if depth >= 3 && tally.searched_moves >= 7 && !mv.flag.noisy() {
                1
            } else {
                0
            };
            let narrow = searched::<R, B>(
                rules,
                after,
                w,
                NodeType::NonPV,
                -tally.alpha - 1,
                -tally.alpha,
                depth - 1 - less,
                ply + 1,
            );
            let alone = !(node is NonPV) && tally.legal_moves <= 1;
            let again = searched::<R, B>(
                rules,
                after,
                narrow.w,
                NodeType::PV,
                -beta,
                -tally.alpha,
                depth - 1,
                ply + 1,
            );
            let first = searched::<R, B>(
                rules,
                after,
                w,
                NodeType::PV,
                -beta,
                -tally.alpha,
                depth - 1,
                ply + 1,
            );
            &&& lost ==> found.score == ply + 2 - MATE && found.depth == depth && found.w.s == w.s
                && found.w.t.stack[ply + 1].mv is None && found.w.t.stack[ply + 1].pv.len() == 0
            &&& !lost && alone && tally.legal_moves == 1 ==> found.score == -first.score
                && found.depth == depth && found.w == first.w
            &&& !lost && !alone && (node is NonPV || -narrow.score <= tally.alpha) ==> found.score
                == -narrow.score && found.depth == depth - less && found.w == narrow.w
            &&& !lost && !alone && !(node is NonPV) && -narrow.score > tally.alpha ==> found.score
                == -again.score && found.depth == depth && found.w == again.w
        }),
{
    reveal(move_searched);
    reveal(searched);
}

/// A node starts with nothing but its window and depth: no move counted, none best,
/// none failed, an upper bound to be stored with the node's own depth if nothing
/// raises alpha; and it asks for the table's move first. A quiescence node leaves out
/// quiet moves.
pub proof fn a_node_starts_with_nothing(
    tt_move: Option<Move>,
    alpha: int,
    depth: int,
    best_score: int,
)
    ensures
        ({
            let t = fresh_tally(tt_move, alpha, depth);
            &&& t.alpha == alpha && t.best_score is None && t.best_move is None
            &&& t.best_move_depth == depth && t.flag is Upper
            &&& t.legal_moves == 0 && t.searched_moves == 0
            &&& t.failed_quiets.len() == 0 && t.failed_noisies.len() == 0 && t.list.len() == 0
            &&& t.picker.tt_move == tt_move && t.picker.stage is TTMove && t.picker.cursor == 0
                && !t.picker.skip_quiets
            &&& forall|i: int| 0 <= i < 64 ==> (#[trigger] t.duck_safety[i]) is None
        }),
        ({
            let t = fresh_quiet_tally(tt_move, alpha, best_score);
            &&& t.alpha == alpha && t.best_score == best_score && t.list.len() == 0
            &&& t.picker.tt_move == tt_move && t.picker.stage is TTMove && t.picker.cursor == 0
                && t.picker.skip_quiets
            &&& forall|i: int| 0 <= i < 64 ==> (#[trigger] t.duck_safety[i]) is None
        }),
{
}

/// A move that is handed out is counted as legal, whether it is searched or not.
pub proof fn every_move_handed_out_is_counted(tally: Tally, turn: Turn)
    requires
        tally.legal_moves < u32::MAX,
    ensures
        ({
            let t = tally.after_turn(turn);
            &&& t.legal_moves == tally.legal_moves + if turn.mv is Some {
                1int
            } else {
                0
            }
            &&& t.picker == turn.picker && t.list == turn.list
            &&& t == (Tally {
                picker: t.picker,
                list: t.list,
                legal_moves: t.legal_moves,
                ..tally
            })
        }),
{
}

/// What a searched move changes. A stop ends the node. The best score is the highest
/// so far. A score above alpha becomes the new alpha, its move the best one, to be
/// stored with the depth it was searched to, as a lower bound if it reaches beta, else
/// as exact; beta ends the node, and the surroundings learn which moves failed before.
/// Any other move joins those that failed, noisy or quiet.
pub proof fn what_a_searched_move_changes<B: Backend>(
    p: PositionModel,
    tally: Tally,
    found: Searched<B::State>,
    node: NodeType,
    beta: int,
    depth: int,
    ply: int,
    mv: Move,
)
    requires
        0 <= ply < MAX_PLY,
        found.w.t.stack.len() == MAX_PLY + 1,
        tally.searched_moves < u32::MAX,
    ensures
        ({
            let better = found.score > tally.alpha;
            let top = tally.best_score is None || found.score > tally.best_score->0;
            match weighed::<B>(p, tally, found, node, beta, depth, ply, mv) {
                Step::End(end) => {
                    &&& end.stopped == found.w.t.stop
                    &&& end.stopped || better && found.score >= beta
                    &&& end.stopped ==> end.w.s == found.w.s && end.w.t.stop
                    &&& !end.stopped ==> {
                        &&& end.tally.best_move == Some(mv)
                        &&& end.tally.best_score == if top {
                            Some(found.score)
                        } else {
                            tally.best_score
                        }
                        &&& end.tally.alpha == found.score
                        &&& end.tally.best_move_depth == found.depth
                        &&& end.tally.flag is Lower
                        &&& end.tally.legal_moves == tally.legal_moves
                        &&& end.w.s == B::after_update(
                            found.w.s,
                            p,
                            depth,
                            mv,
                            tally.failed_quiets,
                            tally.failed_noisies,
                        )
                        &&& end.w.t.stack[ply].mv == Some(mv)
                    }
                },
                Step::On(after, w) => {
                    &&& !found.w.t.stop && !(better && found.score >= beta)
                    &&& w.s == found.w.s
                    &&& after.searched_moves == tally.searched_moves + 1
                    &&& after.legal_moves == tally.legal_moves
                    &&& after.picker == tally.picker && after.list == tally.list
                    &&& after.best_score == if top {
                        Some(found.score)
                    } else {
                        tally.best_score
                    }
                    &&& better ==> after.alpha == found.score && after.best_move == Some(mv)
                        && after.best_move_depth == found.depth && after.flag is Exact
                        && after.failed_quiets == tally.failed_quiets && after.failed_noisies
                        == tally.failed_noisies && w.t.stack[ply].mv == Some(mv)
                    &&& !better ==> after.alpha == tally.alpha && after.best_move
                        == tally.best_move && after.best_move_depth == tally.best_move_depth
                        && after.flag == tally.flag && w.t.stack[ply].mv
                        == found.w.t.stack[ply].mv
                    &&& !better && tally.best_move != Some(mv) ==> {
                        &&& mv.flag.noisy() ==> after.failed_noisies == tally.failed_noisies.push(
                            mv,
                        ) && after.failed_quiets == tally.failed_quiets
                        &&& !mv.flag.noisy() ==> after.failed_quiets == tally.failed_quiets.push(
                            mv,
                        ) && after.failed_noisies == tally.failed_noisies
                    }
                },
            }
        }),
{
    reveal(weighed);
}

/// The line of a ply after a move was searched there: the move and the next ply's line
/// if the move raised alpha on the principal variation, or was the first searched at
/// the root, even if the search was stopped; else the line it had. No other ply
/// changes.
pub proof fn whose_line_a_ply_has<B: Backend>(
    p: PositionModel,
    tally: Tally,
    found: Searched<B::State>,
    node: NodeType,
    beta: int,
    depth: int,
    ply: int,
    mv: Move,
)
    requires
        0 <= ply < MAX_PLY,
        found.w.t.stack.len() == MAX_PLY + 1,
    ensures
        ({
            let t = match weighed::<B>(p, tally, found, node, beta, depth, ply, mv) {
                Step::End(end) => end.w.t,
                Step::On(_, w) => w.t,
            };
            let heads = node is Root && tally.searched_moves == 0 || !(node is NonPV)
                && !found.w.t.stop && found.score > tally.alpha;
            &&& heads ==> t.stack[ply].pv.len() == found.w.t.stack[ply + 1].pv.len() + 1
                && t.stack[ply].pv[0] == mv && t.stack[ply].pv.drop_first()
                == found.w.t.stack[ply + 1].pv
            &&& !heads ==> t.stack[ply].pv == found.w.t.stack[ply].pv
            &&& t.stack.len() == found.w.t.stack.len()
            &&& forall|i: int| 0 <= i <= MAX_PLY && i != ply ==> #[trigger] t.stack[i]
                == found.w.t.stack[i]
            &&& t.stop == found.w.t.stop && t.nmr_ply == found.w.t.nmr_ply && t.sel_depth
                == found.w.t.sel_depth
        }),
{
    reveal(weighed);
    assert((seq![mv] + found.w.t.stack[ply + 1].pv).drop_first()
        =~= found.w.t.stack[ply + 1].pv);
}

/// What a node leaves when it has been through its moves. Without a legal move it is
/// won, and nothing is stored. Else its score is the best one. If there is a duck, the
/// score is no upper bound and announces no mate, it is stored for the board without
/// its duck as a lower bound. It is stored for the board with its bound. Unless a noisy
/// move was best, and if the score tells on which side of it the evaluation lies, the
/// surroundings learn by how much the evaluation was off.
pub proof fn what_a_node_leaves<B: Backend>(
    p: PositionModel,
    tally: Tally,
    w: World<B::State>,
    depth: int,
    ply: int,
    raw_eval: int,
)
    requires
        tally.flag is Upper ==> tally.best_move is None,
    ensures
        ({
            let o = concluded::<B>(p, tally, w, depth, ply, raw_eval);
            let b = p.board();
            let best = tally.best_score->0;
            let general = b.duck is Some && tally.best_move is Some && -MATE_BOUND <= best
                <= MATE_BOUND;
            let s1 = if general {
                B::after_insert(
                    w.s,
                    b.with_duck(None).hash,
                    tally.best_move,
                    best,
                    tally.best_move_depth,
                    TTFlag::Lower,
                )
            } else {
                w.s
            };
            let s2 = B::after_insert(
                s1,
                b.hash,
                tally.best_move,
                best,
                tally.best_move_depth,
                tally.flag,
            );
            let eval = kept_tame(raw_eval + B::corr_of(s2, b));
            let telling = match tally.flag {
                TTFlag::Exact => true,
                TTFlag::Lower => best >= eval,
                TTFlag::Upper => best <= eval,
            };
            let calm = tally.best_move is None || !tally.best_move->0.flag.noisy();
            &&& o.w.t == w.t
            &&& tally.legal_moves == 0 ==> o.score == MATE - ply && o.w.s == w.s
            &&& tally.legal_moves > 0 ==> o.score == best && o.w.s == if calm && telling {
                B::after_update_corr(s2, b, depth, best, eval)
            } else {
                s2
            }
        }),
{
    reveal(concluded);
    let b = p.board();
    assert(b.with_duck(None).hash == b.duckless_key()) by {
        let x = b.duckless_key();
        assert(x ^ 0 == x) by (bit_vector);
    }
}

} // verus!
