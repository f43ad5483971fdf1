//! What the search computes, as a function of what it is given and of what its
//! surroundings answer.

use crate::board::board::BoardModel;
use crate::common::bitboard::all_squares;
use crate::common::geometry::between_set;
use crate::common::moves::Move;
use crate::common::types::Square;
use crate::position::PositionModel;
use crate::rules::{has_moves, legal, MoveFilter, Rules};
use crate::score::{announces_mate, mate_in, mated_in, without_mate, INFINITE};
use crate::search::backend::{Backend, TTFlag};
use crate::search::move_picker::{
    next_other, ranked_moves_are_legal, ranked_noisies, ranked_quiets, PickerModel, Stage, Turn,
};
use crate::search::move_stack::ScoredMove;
use crate::search::thread::ThreadModel;
use crate::search::MAX_PLY;
use vstd::prelude::*;

verus! {

/// The part a node plays in the tree.
#[derive(Debug, Clone, Copy, PartialEq, Eq, Structural)]
pub enum NodeType {
    Root,
    PV,
    NonPV,
}

impl NodeType {
    pub open spec fn pv(self) -> bool {
        !(self is NonPV)
    }

    /// Whether the node lies on a principal variation.
    pub fn is_pv(self) -> (r: bool)
        ensures
            r == self.pv(),
    {
        match self {
            NodeType::NonPV => false,
            _ => true,
        }
    }

    /// Whether the node is the root.
    pub fn is_root(self) -> (r: bool)
        ensures
            r == (self is Root),
    {
        match self {
            NodeType::Root => true,
            _ => false,
        }
    }
}

/// All that a search changes: the thread and the surroundings.
pub struct World<S> {
    pub t: ThreadModel,
    pub s: S,
}

/// A score, and what the search that found it left behind.
pub struct Outcome<S> {
    pub score: int,
    pub w: World<S>,
}

impl<S> World<S> {
    pub open spec fn with_thread(self, t: ThreadModel) -> World<S> {
        World { t, ..self }
    }

    pub open spec fn with_state(self, s: S) -> World<S> {
        World { s, ..self }
    }
}

// Stopping.

/// Whether the search has to stop. A thread that has stopped asks no more.
pub open spec fn must_stop<B: Backend>(w: World<B::State>) -> bool {
    w.t.stop || B::stopping(w.s)
}

pub open spec fn after_must_stop<B: Backend>(w: World<B::State>) -> World<B::State> {
    if w.t.stop {
        w
    } else {
        w.with_state(B::after_stopping(w.s))
    }
}

/// A stopped search scores nothing, and tells every thread.
pub open spec fn stopped<B: Backend>(w: World<B::State>) -> Outcome<B::State> {
    Outcome {
        score: 0,
        w: World { t: w.t.stopped(), s: B::after_set_stop(w.s, true) },
    }
}

// Entering a node.

/// A node starts without a best move, and without a line if it may get one.
pub open spec fn entered(t: ThreadModel, node: NodeType, ply: int) -> ThreadModel {
    let cleared = if node.pv() {
        t.with_pv(ply, Seq::empty())
    } else {
        t
    };
    cleared.with_mv(ply, None).with_sel_depth(ply)
}

/// The score of a node where the game is over: the king is gone, or it is a draw.
pub open spec fn game_over<R: Rules>(
    rules: &R,
    p: PositionModel,
    node: NodeType,
    ply: int,
) -> Option<int> {
    if p.board().king_square(p.board().stm) is None {
        Some(mated_in(ply))
    } else if p.board().hmc >= 100 {
        Some(0)
    } else if !(node is Root) && rules.repeated(p) {
        Some(0)
    } else {
        None
    }
}

// The table of searched positions.

/// What the table contributes: a score that settles the node, or else a move to
/// try first.
pub struct Consulted<S> {
    pub settled: Option<int>,
    pub tt_move: Option<Move>,
    pub w: World<S>,
}

/// Looks the position up without its duck. A move found there is only a hint;
/// off the principal variation, a deep enough lower bound settles the node.
#[verifier::opaque]
pub open spec fn consulted_duckless<R: Rules, B: Backend>(
    rules: &R,
    b: BoardModel,
    w: World<B::State>,
    node: NodeType,
    beta: int,
    depth: int,
    ply: int,
    tt_move: Option<Move>,
) -> Consulted<B::State> {
    let found = B::entry(w.s, b.duckless_key());
    let w = w.with_state(B::after_probe(w.s, b.duckless_key()));
    let e = found->0;
    let cutoff = !node.pv() && e.depth >= depth && e.score@ >= beta;
    if found is Some && e.flag is Lower && !announces_mate(e.score@) && (cutoff || tt_move is None)
        && e.best_move is Some && legal(rules, b, e.best_move->0) {
        if cutoff {
            Consulted {
                settled: Some(e.score@),
                tt_move,
                w: w.with_thread(w.t.with_mv(ply, e.best_move)),
            }
        } else {
            Consulted { settled: None, tt_move: e.best_move, w }
        }
    } else {
        Consulted { settled: None, tt_move, w }
    }
}

/// Looks the position up, and without its duck where that can help.
#[verifier::opaque]
pub open spec fn consulted<R: Rules, B: Backend>(
    rules: &R,
    b: BoardModel,
    w: World<B::State>,
    node: NodeType,
    alpha: int,
    beta: int,
    depth: int,
    ply: int,
) -> Consulted<B::State> {
    let found = B::entry(w.s, b.hash);
    let w = w.with_state(B::after_probe(w.s, b.hash));
    let e = found->0;
    let tt_move = if found is Some {
        e.best_move
    } else {
        None
    };
    if !(node is Root) && found is Some && e.depth >= depth && e.flag.settles(
        e.score@,
        alpha,
        beta,
    ) {
        Consulted { settled: Some(e.score@), tt_move, w }
    } else if !node.pv() || tt_move is None {
        consulted_duckless::<R, B>(rules, b, w, node, beta, depth, ply, tt_move)
    } else {
        Consulted { settled: None, tt_move, w }
    }
}

// The evaluation.

/// An evaluation with its correction. It announces no forced win or loss.
pub open spec fn adjusted(eval: int, corr: int) -> int {
    without_mate(eval + corr)
}

/// The corrected evaluation of a board.
pub open spec fn static_eval_of<B: Backend>(s: B::State, b: BoardModel) -> int {
    adjusted(B::eval_of(s, b), B::corr_of(s, b))
}

/// Whether the evaluation is better than at this side's last turn, or at the one
/// before if that one has no evaluation.
pub open spec fn improves(t: ThreadModel, ply: int, static_eval: int) -> bool {
    if ply >= 2 && t.stack[ply - 2].static_eval is Some {
        static_eval > t.stack[ply - 2].static_eval->0
    } else if ply >= 4 && t.stack[ply - 4].static_eval is Some {
        static_eval > t.stack[ply - 4].static_eval->0
    } else {
        true
    }
}

/// Reverse futility: the evaluation is so far above beta that a pessimistic
/// estimate still is.
pub open spec fn futile<B: Backend>(
    node: NodeType,
    beta: int,
    depth: int,
    static_eval: int,
    improving: bool,
) -> bool {
    !node.pv() && depth <= B::rfp_reach() && static_eval - B::rfp_slack(depth, improving) >= beta
}

/// Whether to see what happens if the side to move passes.
pub open spec fn null_move_wanted<B: Backend>(
    t: ThreadModel,
    node: NodeType,
    beta: int,
    depth: int,
    ply: int,
    static_eval: int,
) -> bool {
    !node.pv() && depth >= 4 && t.nmr_ply != Some(ply as usize) && t.stack[ply - 1].mv is Some
        && static_eval >= beta + B::nmr_slack()
}

// The moves of a node.

/// Where a move stands in the tables indexed by origin and destination.
pub open spec fn route(mv: Move) -> int {
    mv.src.number() * 64 + mv.dest.number()
}

pub open spec fn bumped(counts: Seq<u8>, i: int) -> Seq<u8> {
    counts.update(i, counts[i].wrapping_add(1))
}

/// One more, unless the counter is at its top.
pub open spec fn one_more(n: u32) -> u32 {
    n.saturating_add(1)
}

/// The squares from which the duck does not keep a reply from being played: not
/// on its way, not on its destination, and not where the reply puts the duck.
pub open spec fn not_stopping(reply: Move) -> Set<Square> {
    between_set(reply.src, reply.dest).insert(reply.dest).insert(reply.duck).complement()
}

/// The duck squares that save the king after a move from this origin.
pub struct Safety {
    pub src: Square,
    pub squares: Set<Square>,
}

/// The duck squares that save the king after a move, remembered by destination
/// for the latest origin.
pub open spec fn safety_known<R: Rules>(
    rules: &R,
    b: BoardModel,
    safety: Seq<Option<Safety>>,
    mv: Move,
) -> Seq<Option<Safety>> {
    let at = mv.dest.number();
    if safety[at] is Some && safety[at]->0.src == mv.src {
        safety
    } else {
        let after = rules.played(b, mv);
        safety.update(
            at,
            Some(Safety { src: mv.src, squares: after.saving_squares(after.stm.opponent()) }),
        )
    }
}

/// What a node has learnt from the moves searched so far.
pub struct Tally {
    pub picker: PickerModel,
    pub list: Seq<ScoredMove>,
    pub alpha: int,
    pub best_move: Option<Move>,
    pub best_move_depth: int,
    pub best_score: Option<int>,
    pub legal_moves: u32,
    pub searched_moves: u32,
    pub failed_quiets: Seq<Move>,
    pub failed_noisies: Seq<Move>,
    pub ducks_by_move: Seq<u8>,
    pub duck_counts: Seq<u8>,
    pub duck_refutations: Seq<Set<Square>>,
    pub duck_safety: Seq<Option<Safety>>,
    pub flag: TTFlag,
}

/// A node that has searched no move yet.
pub open spec fn fresh_tally(tt_move: Option<Move>, alpha: int, depth: int) -> Tally {
    Tally {
        picker: PickerModel { stage: Stage::TTMove, tt_move, skip_quiets: false, cursor: 0 },
        list: Seq::empty(),
        alpha,
        best_move: None,
        best_move_depth: depth,
        best_score: None,
        legal_moves: 0,
        searched_moves: 0,
        failed_quiets: Seq::empty(),
        failed_noisies: Seq::empty(),
        ducks_by_move: Seq::new(4096, |i: int| 0u8),
        duck_counts: Seq::new(64, |i: int| 0u8),
        duck_refutations: Seq::new(4096, |i: int| Set::<Square>::empty()),
        duck_safety: Seq::new(64, |i: int| None::<Safety>),
        flag: TTFlag::Upper,
    }
}

impl Tally {
    pub open spec fn after_turn(self, turn: Turn) -> Tally {
        Tally {
            picker: turn.picker,
            list: turn.list,
            legal_moves: if turn.mv is Some {
                one_more(self.legal_moves)
            } else {
                self.legal_moves
            },
            ..self
        }
    }

    /// Whether an earlier reply refutes this move too.
    pub open spec fn refutes(self, mv: Move) -> bool {
        self.duck_refutations[route(mv)].contains(mv.duck)
    }

    pub open spec fn with_safety<R: Rules>(self, rules: &R, b: BoardModel, mv: Move) -> Tally {
        Tally { duck_safety: safety_known(rules, b, self.duck_safety, mv), ..self }
    }

    /// The duck squares that save the king after this move.
    pub open spec fn safe(self, mv: Move) -> Set<Square> {
        self.duck_safety[mv.dest.number()]->0.squares
    }

    /// Late duck pruning: enough duck squares have been tried for this move.
    pub open spec fn late<B: Backend>(self, mv: Move, depth: int, improving: bool) -> bool {
        let quiet = !mv.flag.noisy();
        self.safe(mv) == all_squares() && depth <= B::ldp_reach(quiet)
            && self.ducks_by_move[route(mv)] >= B::ldp_limit(depth, quiet, improving)
    }

    /// Duck count pruning: enough moves have been tried with this duck square.
    pub open spec fn crowded<B: Backend>(
        self,
        mv: Move,
        node: NodeType,
        depth: int,
        improving: bool,
    ) -> bool {
        !node.pv() && !mv.flag.noisy() && depth <= B::dcp_reach()
            && self.duck_counts[mv.duck.number()] >= B::dcp_limit(depth, improving)
    }

    pub open spec fn counting(self, mv: Move) -> Tally {
        Tally {
            ducks_by_move: bumped(self.ducks_by_move, route(mv)),
            duck_counts: bumped(self.duck_counts, mv.duck.number()),
            ..self
        }
    }

    /// How much shallower a late quiet move is searched first.
    pub open spec fn reduction(self, mv: Move, depth: int) -> int {
        if depth >= 3 && self.searched_moves > 6 && !mv.flag.noisy() {
            1
        } else {
            0
        }
    }

    /// Learns the reply that the opponent found best.
    pub open spec fn with_reply(self, mv: Move, reply: Option<Move>) -> Tally {
        Tally {
            duck_refutations: match reply {
                Some(r) => self.duck_refutations.update(
                    route(mv),
                    self.duck_refutations[route(mv)].union(not_stopping(r)),
                ),
                None => self.duck_refutations,
            },
            ..self
        }
    }

    /// Learns the score of a move.
    pub open spec fn with_score(self, mv: Move, score: int, move_depth: int, beta: int) -> Tally {
        let searched_moves = one_more(self.searched_moves);
        let best_score = if self.best_score is None || score > self.best_score->0 {
            Some(score)
        } else {
            self.best_score
        };
        if score > self.alpha {
            Tally {
                searched_moves,
                best_score,
                alpha: score,
                best_move: Some(mv),
                best_move_depth: move_depth,
                flag: if score >= beta {
                    TTFlag::Lower
                } else {
                    TTFlag::Exact
                },
                ..self
            }
        } else {
            Tally { searched_moves, best_score, ..self }
        }
    }

    /// Learns that a move was not good enough, unless it is the best one.
    pub open spec fn with_failure(self, mv: Move) -> Tally {
        if self.best_move == Some(mv) {
            self
        } else if mv.flag.noisy() {
            Tally { failed_noisies: self.failed_noisies.push(mv), ..self }
        } else {
            Tally { failed_quiets: self.failed_quiets.push(mv), ..self }
        }
    }
}

/// What raising alpha to a move's score does to the thread: the move is the best
/// one, and heads the line if the node may have one.
pub open spec fn raised(
    t: ThreadModel,
    mv: Move,
    node: NodeType,
    ply: int,
) -> ThreadModel {
    if node.pv() {
        t.with_mv(ply, Some(mv)).with_line(ply, mv)
    } else {
        t.with_mv(ply, Some(mv))
    }
}

/// A move that lets the king be captured at once is lost without a search, unless
/// the game is drawn by it.
pub open spec fn lost_at_once<R: Rules>(rules: &R, after: PositionModel, safe: bool) -> bool {
    !safe && after.board().hmc < 100 && !rules.repeated(after)
}

/// A move's score, the depth it was searched to, and what that left behind.
pub struct Searched<S> {
    pub score: int,
    pub depth: int,
    pub w: World<S>,
}

/// What is left when a node has no more moves to search, or searches no more.
pub struct Exhausted<S> {
    pub tally: Tally,
    pub w: World<S>,
    pub stopped: bool,
}

/// What comes after a move: the end of the node, or the next move.
pub enum Step<S> {
    End(Exhausted<S>),
    On(Tally, World<S>),
}

/// Weighs a move's score. A stop ends the node, and so does a score that reaches
/// beta; the surroundings learn from the latter. The first move searched at the
/// root is its line until a better one is found.
#[verifier::opaque]
pub open spec fn weighed<B: Backend>(
    p: PositionModel,
    counted: Tally,
    found: Searched<B::State>,
    node: NodeType,
    beta: int,
    depth: int,
    ply: int,
    mv: Move,
) -> Step<B::State> {
    let t = if node is Root && counted.searched_moves == 0 {
        found.w.t.with_line(ply, mv)
    } else {
        found.w.t
    };
    if t.stop {
        Step::End(Exhausted { tally: counted, w: found.w.with_thread(t), stopped: true })
    } else {
        let scored = counted.with_reply(mv, t.stack[ply + 1].mv).with_score(
            mv,
            found.score,
            found.depth,
            beta,
        );
        if found.score > counted.alpha && found.score >= beta {
            let s = B::after_update(
                found.w.s,
                p,
                depth,
                mv,
                scored.failed_quiets,
                scored.failed_noisies,
            );
            Step::End(
                Exhausted {
                    tally: scored,
                    w: World { t: raised(t, mv, node, ply), s },
                    stopped: false,
                },
            )
        } else {
            let t = if found.score > counted.alpha {
                raised(t, mv, node, ply)
            } else {
                t
            };
            Step::On(scored.with_failure(mv), found.w.with_thread(t))
        }
    }
}

/// Stores the outcome of a node and learns from it.
#[verifier::opaque]
pub open spec fn concluded<B: Backend>(
    p: PositionModel,
    tally: Tally,
    w: World<B::State>,
    depth: int,
    ply: int,
    raw_eval: int,
) -> Outcome<B::State> {
    let b = p.board();
    let best = tally.best_score->0;
    if tally.legal_moves == 0 {
        Outcome { score: mate_in(ply), w }
    } else {
        let s1 = if b.duck is Some && tally.best_move is Some && !(tally.flag is Upper)
            && !announces_mate(best) {
            B::after_insert(
                w.s,
                b.duckless_key(),
                tally.best_move,
                best,
                tally.best_move_depth,
                TTFlag::Lower,
            )
        } else {
            w.s
        };
        let s2 = B::after_insert(
            s1,
            b.hash,
            tally.best_move,
            best,
            tally.best_move_depth,
            tally.flag,
        );
        let static_eval = adjusted(raw_eval, B::corr_of(s2, b));
        let s3 = if (tally.best_move is None || !tally.best_move->0.flag.noisy())
            && tally.flag.settles(best, static_eval, static_eval) {
            B::after_update_corr(s2, b, depth, best, static_eval)
        } else {
            s2
        };
        Outcome { score: best, w: w.with_state(s3) }
    }
}

/// A depth, as far as it counts.
pub open spec fn reach(depth: int) -> nat {
    if depth > 0 {
        depth as nat
    } else {
        0
    }
}

/// Asking a picker for moves comes to an end.
pub proof fn turns_run_out<R: Rules, B: Backend>(
    rules: &R,
    s: B::State,
    p: PositionModel,
    pk: PickerModel,
    list: Seq<ScoredMove>,
)
    ensures
        ({
            let turn = pk.pick::<R, B>(rules, s, p, list);
            turn.mv is Some ==> 0 <= turn.picker.stage.ahead() < pk.stage.ahead() || (
            turn.picker.stage == pk.stage && 0 <= turn.list.len() - turn.picker.cursor < list.len()
                - pk.cursor)
        }),
{
    reveal(PickerModel::pick);
    lemma_next_at_least(list, pk.tt_move, pk.cursor);
}

proof fn lemma_next_at_least(list: Seq<ScoredMove>, tt_move: Option<Move>, cursor: int)
    ensures
        next_other(list, tt_move, cursor) < list.len() ==> next_other(list, tt_move, cursor)
            >= cursor,
    decreases list.len() - cursor,
{
    if cursor < list.len() && tt_move == Some(list[cursor].0) {
        lemma_next_at_least(list, tt_move, cursor + 1);
    }
}

/// A node that has a legal move gets one to search.
pub proof fn first_pick_finds_a_move<R: Rules, B: Backend>(
    rules: &R,
    s: B::State,
    p: PositionModel,
    tt_move: Option<Move>,
    alpha: int,
    depth: int,
)
    requires
        has_moves(rules, p.board()),
    ensures
        ({
            let fresh = fresh_tally(tt_move, alpha, depth);
            fresh.picker.pick::<R, B>(rules, s, p, fresh.list).mv is Some
        }),
{
    reveal(PickerModel::pick);
    let b = p.board();
    let fresh = fresh_tally(tt_move, alpha, depth);
    if !(tt_move is Some && legal(rules, b, tt_move->0)) {
        let noisies = ranked_noisies::<R, B>(rules, s, p, tt_move);
        let quiets = ranked_quiets::<R, B>(rules, s, p, tt_move);
        ranked_moves_are_legal::<R, B>(MoveFilter::Noisy, rules, s, p, tt_move);
        ranked_moves_are_legal::<R, B>(MoveFilter::Quiet, rules, s, p, tt_move);
        let list = fresh.list + noisies;
        assert(list =~= noisies);
        if noisies.len() > 0 {
            assert(legal(rules, b, noisies[0].0));
        } else {
            assert(quiets.len() > 0);
            assert(list + quiets =~= quiets);
            assert(legal(rules, b, quiets[0].0));
        }
    }
}

// The search.

/// Lets the opponent move twice in a row. If that fails high, a reduced search
/// must confirm it; inside such a search it counts by itself. The score, if the
/// node is settled by it.
#[verifier::opaque]
pub open spec fn null_move_tried<R: Rules, B: Backend>(
    rules: &R,
    p: PositionModel,
    w: World<B::State>,
    alpha: int,
    beta: int,
    depth: int,
    ply: int,
) -> (Option<int>, World<B::State>)
    decreases reach(depth), 2nat, 0int, 0int,
    when depth >= 4
{
    let passed = searched::<R, B>(
        rules,
        p.after_null(rules),
        w,
        NodeType::NonPV,
        -beta,
        -beta + 1,
        depth - 3,
        ply + 1,
    );
    let w = passed.w;
    if w.t.stop {
        (Some(0), w)
    } else if -passed.score >= beta {
        if w.t.nmr_ply is Some {
            (Some(-passed.score), w)
        } else {
            let confirmed = searched::<R, B>(
                rules,
                p,
                w.with_thread(w.t.with_nmr_ply(Some(ply as usize))),
                NodeType::NonPV,
                alpha,
                beta,
                depth / 2,
                ply,
            );
            let w = confirmed.w.with_thread(confirmed.w.t.with_nmr_ply(None));
            if confirmed.score >= beta {
                (Some(confirmed.score), w)
            } else {
                (None, w)
            }
        }
    } else {
        (None, w)
    }
}

/// Plays a move and searches what follows: with a narrow window, and on the
/// principal variation with the full one where the first did not settle it.
#[verifier::opaque]
pub open spec fn move_searched<R: Rules, B: Backend>(
    rules: &R,
    p: PositionModel,
    w: World<B::State>,
    tally: Tally,
    node: NodeType,
    beta: int,
    depth: int,
    ply: int,
    mv: Move,
) -> Searched<B::State>
    decreases reach(depth), 1nat, 0int, 0int,
    when depth > 0
{
    let after = p.after_move(rules, mv);
    if lost_at_once(rules, after, tally.safe(mv).contains(mv.duck)) {
        Searched {
            score: mated_in(ply + 2),
            depth,
            w: w.with_thread(w.t.with_pv(ply + 1, Seq::empty()).with_mv(ply + 1, None)),
        }
    } else {
        let reduction = tally.reduction(mv, depth);
        let narrow = if !node.pv() || tally.legal_moves > 1 {
            let o = searched::<R, B>(
                rules,
                after,
                w,
                NodeType::NonPV,
                -tally.alpha - 1,
                -tally.alpha,
                depth - 1 - reduction,
                ply + 1,
            );
            Searched { score: -o.score, depth: depth - reduction, w: o.w }
        } else {
            Searched { score: -INFINITE as int, depth, w }
        };
        if node.pv() && (tally.legal_moves == 1 || narrow.score > tally.alpha) {
            let o = searched::<R, B>(
                rules,
                after,
                narrow.w,
                NodeType::PV,
                -beta,
                -tally.alpha,
                depth - 1,
                ply + 1,
            );
            Searched { score: -o.score, depth, w: o.w }
        } else {
            narrow
        }
    }
}

/// Searches the moves of a node, one after another.
#[verifier::opaque]
pub open spec fn moves_searched<R: Rules, B: Backend>(
    rules: &R,
    p: PositionModel,
    w: World<B::State>,
    tally: Tally,
    node: NodeType,
    beta: int,
    depth: int,
    ply: int,
    improving: bool,
) -> Exhausted<B::State>
    decreases
            reach(depth),
            2nat,
            tally.picker.stage.ahead(),
            tally.list.len() - tally.picker.cursor,
    when depth > 0
{
    proof {
        reveal(weighed);
        turns_run_out::<R, B>(rules, w.s, p, tally.picker, tally.list);
    }
    let turn = tally.picker.pick::<R, B>(rules, w.s, p, tally.list);
    let tally = tally.after_turn(turn);
    if turn.mv is None {
        Exhausted { tally, w, stopped: false }
    } else {
        let mv = turn.mv->0;
        let known = tally.with_safety(rules, p.board(), mv);
        if tally.refutes(mv) {
            moves_searched::<R, B>(rules, p, w, tally, node, beta, depth, ply, improving)
        } else if known.late::<B>(mv, depth, improving) || known.crowded::<B>(
            mv,
            node,
            depth,
            improving,
        ) {
            moves_searched::<R, B>(rules, p, w, known, node, beta, depth, ply, improving)
        } else {
            let counted = known.counting(mv);
            let found = move_searched::<R, B>(
                rules,
                p,
                w,
                counted,
                node,
                beta,
                depth,
                ply,
                mv,
            );
            match weighed::<B>(p, counted, found, node, beta, depth, ply, mv) {
                Step::End(end) => end,
                Step::On(tally, w) => moves_searched::<R, B>(
                    rules,
                    p,
                    w,
                    tally,
                    node,
                    beta,
                    depth,
                    ply,
                    improving,
                ),
            }
        }
    }
}

/// Searches the moves of a node from the first to the last, and concludes.
#[verifier::opaque]
pub open spec fn all_searched<R: Rules, B: Backend>(
    rules: &R,
    p: PositionModel,
    w: World<B::State>,
    node: NodeType,
    alpha: int,
    beta: int,
    depth: int,
    ply: int,
    tt_move: Option<Move>,
    raw_eval: int,
    improving: bool,
) -> Outcome<B::State>
    decreases reach(depth), 5nat, 0int, 0int,
    when depth > 0
{
    let end = moves_searched::<R, B>(
        rules,
        p,
        w,
        fresh_tally(tt_move, alpha, depth),
        node,
        beta,
        depth,
        ply,
        improving,
    );
    if end.stopped {
        Outcome { score: 0, w: end.w }
    } else {
        concluded::<B>(p, end.tally, end.w, depth, ply, raw_eval)
    }
}

/// Settles a node at the last ply, where no move can be followed up: a side without
/// a move wins, a stop is obeyed, else the evaluation stands.
pub open spec fn settled_at_last_ply<R: Rules, B: Backend>(
    rules: &R,
    p: PositionModel,
    w: World<B::State>,
    ply: int,
    static_eval: int,
) -> Outcome<B::State> {
    if !has_moves(rules, p.board()) {
        Outcome { score: mate_in(ply), w }
    } else if must_stop::<B>(w) {
        stopped::<B>(after_must_stop::<B>(w))
    } else {
        Outcome { score: static_eval, w: after_must_stop::<B>(w) }
    }
}

/// Searches a node whose evaluation is known: first a null move, then the moves,
/// unless it stands at the last ply.
#[verifier::opaque]
pub open spec fn node_searched<R: Rules, B: Backend>(
    rules: &R,
    p: PositionModel,
    w: World<B::State>,
    node: NodeType,
    alpha: int,
    beta: int,
    depth: int,
    ply: int,
    tt_move: Option<Move>,
    raw_eval: int,
    static_eval: int,
    improving: bool,
) -> Outcome<B::State>
    decreases reach(depth), 6nat, 0int, 0int,
    when depth > 0
{
    let (settled, w) = if null_move_wanted::<B>(w.t, node, beta, depth, ply, static_eval) {
        null_move_tried::<R, B>(rules, p, w, alpha, beta, depth, ply)
    } else {
        (None, w)
    };
    if settled is Some {
        Outcome { score: settled->0, w }
    } else if ply >= MAX_PLY {
        settled_at_last_ply::<R, B>(rules, p, w, ply, static_eval)
    } else {
        all_searched::<R, B>(
            rules,
            p,
            w,
            node,
            alpha,
            beta,
            depth,
            ply,
            tt_move,
            raw_eval,
            improving,
        )
    }
}

/// Searches a position to a depth, for a score between alpha and beta. Beyond the
/// last ply the evaluation stands.
#[verifier::opaque]
pub open spec fn searched<R: Rules, B: Backend>(
    rules: &R,
    p: PositionModel,
    w: World<B::State>,
    node: NodeType,
    alpha: int,
    beta: int,
    depth: int,
    ply: int,
) -> Outcome<B::State>
    decreases reach(depth), 7nat, 0int, 0int,
{
    if !(node is Root) && must_stop::<B>(w) {
        stopped::<B>(after_must_stop::<B>(w))
    } else {
        let w = if node is Root {
            w
        } else {
            after_must_stop::<B>(w)
        };
        let w = if ply > MAX_PLY {
            w
        } else {
            w.with_thread(entered(w.t, node, ply))
        };
        if ply > MAX_PLY {
            Outcome { score: static_eval_of::<B>(w.s, p.board()), w }
        } else if depth <= 0 {
            quiesced::<R, B>(rules, p, w, node, alpha, beta, ply)
        } else {
            let w = if node is Root {
                w
            } else {
                w.with_state(B::after_node(w.s))
            };
            let over = game_over(rules, p, node, ply);
            let b = p.board();
            let c = consulted::<R, B>(rules, b, w, node, alpha, beta, depth, ply);
            let raw_eval = B::eval_of(c.w.s, b);
            let static_eval = static_eval_of::<B>(c.w.s, b);
            let improving = improves(c.w.t, ply, static_eval);
            let w2 = c.w.with_thread(c.w.t.with_evals(ply, raw_eval, static_eval));
            if over is Some {
                Outcome { score: over->0, w }
            } else if c.settled is Some {
                Outcome { score: c.settled->0, w: c.w }
            } else if futile::<B>(node, beta, depth, static_eval, improving) {
                Outcome { score: static_eval, w: w2 }
            } else {
                node_searched::<R, B>(
                    rules,
                    p,
                    w2,
                    node,
                    alpha,
                    beta,
                    depth,
                    ply,
                    c.tt_move,
                    raw_eval,
                    static_eval,
                    improving,
                )
            }
        }
    }
}

/// A node without a null move to try is settled by its moves; one with, by the
/// null move if that settles it. The last ply is settled without its moves.
pub proof fn node_unfolds<R: Rules, B: Backend>(
    rules: &R,
    p: PositionModel,
    w: World<B::State>,
    node: NodeType,
    alpha: int,
    beta: int,
    depth: int,
    ply: int,
    tt_move: Option<Move>,
    raw_eval: int,
    static_eval: int,
    improving: bool,
)
    requires
        depth > 0,
    ensures
        ({
            let wanted = null_move_wanted::<B>(w.t, node, beta, depth, ply, static_eval);
            let (settled, w2) = null_move_tried::<R, B>(rules, p, w, alpha, beta, depth, ply);
            let o = node_searched::<R, B>(
                rules,
                p,
                w,
                node,
                alpha,
                beta,
                depth,
                ply,
                tt_move,
                raw_eval,
                static_eval,
                improving,
            );
            &&& wanted && settled is Some ==> o.score == settled->0 && o.w == w2
            &&& !(wanted && settled is Some) ==> {
                let w3 = if wanted {
                    w2
                } else {
                    w
                };
                if ply >= MAX_PLY {
                    o == settled_at_last_ply::<R, B>(rules, p, w3, ply, static_eval)
                } else {
                    o == all_searched::<R, B>(
                        rules,
                        p,
                        w3,
                        node,
                        alpha,
                        beta,
                        depth,
                        ply,
                        tt_move,
                        raw_eval,
                        improving,
                    )
                }
            }
        }),
{
    reveal(node_searched);
    reveal(null_move_tried);
    reveal(all_searched);
}

// The quiescence search.

/// What a quiescence node has learnt from the moves searched so far.
pub struct QuietTally {
    pub picker: PickerModel,
    pub list: Seq<ScoredMove>,
    pub alpha: int,
    pub best_score: int,
    pub ducks_by_move: Seq<u8>,
    pub duck_counts: Seq<u8>,
    pub duck_refutations: Seq<Set<Square>>,
    pub duck_safety: Seq<Option<Safety>>,
}

/// A quiescence node that has searched no move yet. It will leave out quiet moves.
pub open spec fn fresh_quiet_tally(
    tt_move: Option<Move>,
    alpha: int,
    best_score: int,
) -> QuietTally {
    QuietTally {
        picker: PickerModel { stage: Stage::TTMove, tt_move, skip_quiets: true, cursor: 0 },
        list: Seq::empty(),
        alpha,
        best_score,
        ducks_by_move: Seq::new(4096, |i: int| 0u8),
        duck_counts: Seq::new(64, |i: int| 0u8),
        duck_refutations: Seq::new(64, |i: int| Set::<Square>::empty()),
        duck_safety: Seq::new(64, |i: int| None::<Safety>),
    }
}

impl QuietTally {
    pub open spec fn after_turn(self, turn: Turn) -> QuietTally {
        QuietTally { picker: turn.picker, list: turn.list, ..self }
    }

    /// Whether an earlier reply refutes this move too.
    pub open spec fn refutes(self, mv: Move) -> bool {
        self.duck_refutations[mv.dest.number()].contains(mv.duck)
    }

    pub open spec fn with_safety<R: Rules>(self, rules: &R, b: BoardModel, mv: Move) -> QuietTally {
        QuietTally { duck_safety: safety_known(rules, b, self.duck_safety, mv), ..self }
    }

    /// The duck squares that save the king after this move.
    pub open spec fn safe(self, mv: Move) -> Set<Square> {
        self.duck_safety[mv.dest.number()]->0.squares
    }

    /// Late duck pruning: enough duck squares have been tried for this move.
    pub open spec fn late<B: Backend>(self, mv: Move) -> bool {
        self.safe(mv) == all_squares() && self.ducks_by_move[route(mv)] >= B::qsldp_limit()
    }

    /// Duck count pruning: enough moves have been tried with this duck square.
    pub open spec fn crowded<B: Backend>(self, mv: Move, node: NodeType) -> bool {
        !node.pv() && self.duck_counts[mv.duck.number()] >= B::qsdcp_limit()
    }

    pub open spec fn counting(self, mv: Move) -> QuietTally {
        QuietTally {
            ducks_by_move: bumped(self.ducks_by_move, route(mv)),
            duck_counts: bumped(self.duck_counts, mv.duck.number()),
            ..self
        }
    }

    /// Learns the reply that the opponent found best.
    pub open spec fn with_reply(self, mv: Move, reply: Option<Move>) -> QuietTally {
        QuietTally {
            duck_refutations: match reply {
                Some(r) => self.duck_refutations.update(
                    mv.dest.number(),
                    self.duck_refutations[mv.dest.number()].union(not_stopping(r)),
                ),
                None => self.duck_refutations,
            },
            ..self
        }
    }

    /// Learns the score of a move.
    pub open spec fn with_score(self, score: int) -> QuietTally {
        QuietTally {
            best_score: if score > self.best_score {
                score
            } else {
                self.best_score
            },
            alpha: if score > self.alpha {
                score
            } else {
                self.alpha
            },
            ..self
        }
    }
}

/// Plays a noisy move and searches what follows.
#[verifier::opaque]
pub open spec fn noisy_searched<R: Rules, B: Backend>(
    rules: &R,
    p: PositionModel,
    w: World<B::State>,
    tally: QuietTally,
    node: NodeType,
    beta: int,
    ply: int,
    mv: Move,
) -> Outcome<B::State>
    decreases MAX_PLY - ply, 0nat, 0int, 0int,
    when ply < MAX_PLY
{
    let after = p.after_move(rules, mv);
    if lost_at_once(rules, after, tally.safe(mv).contains(mv.duck)) {
        Outcome {
            score: mated_in(ply + 2),
            w: w.with_thread(w.t.with_pv(ply + 1, Seq::empty()).with_mv(ply + 1, None)),
        }
    } else {
        let o = quiesced::<R, B>(rules, after, w, node, -beta, -tally.alpha, ply + 1);
        Outcome { score: -o.score, w: o.w }
    }
}

/// Searches the noisy moves of a node, one after another. `None` if the search
/// was stopped.
#[verifier::opaque]
pub open spec fn noisies_searched<R: Rules, B: Backend>(
    rules: &R,
    p: PositionModel,
    w: World<B::State>,
    tally: QuietTally,
    node: NodeType,
    beta: int,
    ply: int,
) -> (Option<int>, World<B::State>)
    decreases
            MAX_PLY - ply,
            1nat,
            tally.picker.stage.ahead(),
            tally.list.len() - tally.picker.cursor,
    when ply < MAX_PLY
{
    proof {
        turns_run_out::<R, B>(rules, w.s, p, tally.picker, tally.list);
    }
    let turn = tally.picker.pick::<R, B>(rules, w.s, p, tally.list);
    let tally = tally.after_turn(turn);
    if turn.mv is None {
        (Some(tally.best_score), w)
    } else {
        let mv = turn.mv->0;
        let known = tally.with_safety(rules, p.board(), mv);
        if tally.refutes(mv) {
            noisies_searched::<R, B>(rules, p, w, tally, node, beta, ply)
        } else if known.late::<B>(mv) || known.crowded::<B>(mv, node) {
            noisies_searched::<R, B>(rules, p, w, known, node, beta, ply)
        } else {
            let counted = known.counting(mv);
            let found = noisy_searched::<R, B>(rules, p, w, counted, node, beta, ply, mv);
            if found.w.t.stop {
                (None, found.w)
            } else {
                let scored = counted.with_reply(mv, found.w.t.stack[ply + 1].mv).with_score(
                    found.score,
                );
                let w = if found.score > counted.alpha {
                    found.w.with_thread(raised(found.w.t, mv, node, ply))
                } else {
                    found.w
                };
                if found.score > counted.alpha && found.score >= beta {
                    (Some(scored.best_score), w)
                } else {
                    noisies_searched::<R, B>(rules, p, w, scored, node, beta, ply)
                }
            }
        }
    }
}

/// Searches noisy moves until the position is quiet, for a score between alpha
/// and beta. A side may stand pat on the evaluation.
#[verifier::opaque]
pub open spec fn quiesced<R: Rules, B: Backend>(
    rules: &R,
    p: PositionModel,
    w: World<B::State>,
    node: NodeType,
    alpha: int,
    beta: int,
    ply: int,
) -> Outcome<B::State>
    decreases
            if ply < MAX_PLY {
                MAX_PLY - ply
            } else {
                0
            },
            2nat,
            0int,
            0int,
{
    let w = w.with_state(B::after_node(w.s));
    if must_stop::<B>(w) {
        stopped::<B>(after_must_stop::<B>(w))
    } else {
        let b = p.board();
        let w = after_must_stop::<B>(w);
        if ply >= MAX_PLY {
            Outcome { score: static_eval_of::<B>(w.s, b), w }
        } else {
            let w = w.with_thread(entered(w.t, node, ply));
            let over = game_over(rules, p, NodeType::NonPV, ply);
            let found = B::entry(w.s, b.hash);
            let e = found->0;
            let tt_move = if found is Some && e.best_move is Some && e.best_move->0.flag.noisy() {
                e.best_move
            } else {
                None
            };
            let w2 = w.with_state(B::after_probe(w.s, b.hash));
            let raw_eval = B::eval_of(w2.s, b);
            let static_eval = static_eval_of::<B>(w2.s, b);
            if over is Some {
                Outcome { score: over->0, w }
            } else if found is Some && e.flag.settles(e.score@, alpha, beta) {
                Outcome { score: e.score@, w: w2 }
            } else if static_eval >= beta {
                Outcome { score: static_eval, w: w2 }
            } else {
                let (score, w3) = noisies_searched::<R, B>(
                    rules,
                    p,
                    w2.with_thread(w2.t.with_evals(ply, raw_eval, static_eval)),
                    fresh_quiet_tally(
                        tt_move,
                        if static_eval > alpha {
                            static_eval
                        } else {
                            alpha
                        },
                        static_eval,
                    ),
                    node,
                    beta,
                    ply,
                );
                Outcome {
                    score: if score is Some {
                        score->0
                    } else {
                        0
                    },
                    w: w3,
                }
            }
        }
    }
}

} // verus!
