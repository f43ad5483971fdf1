//! The quiescence search: noisy moves only, until nothing is left to take.

use crate::common::moves::Move;
use crate::position::{lines_grow_from_the_front, playable, unmake_undoes_make, Position};
use crate::rules::{legal, Rules};
use crate::score::{announces_mate, in_range, Score, INFINITE};
use crate::search::backend::Backend;
use crate::search::ducks::DuckTables;
use crate::search::model::{
    adjusted, after_must_stop, entered, fresh_quiet_tally, game_over, must_stop, noisies_searched,
    noisy_searched, quiesced, raised, stopped, turns_run_out, NodeType, QuietTally, World,
};
use crate::search::move_picker::{all_legal, MovePicker};
use crate::search::move_stack::ScoredMove;
use crate::search::thread::{ThreadData, ThreadModel};
use crate::search::MAX_PLY;
use vstd::prelude::*;

verus! {

/// Whether alpha and beta make a window: in order, within the infinities, and
/// without room between them off the principal variation.
pub open spec fn window(node: NodeType, alpha: int, beta: int) -> bool {
    -INFINITE <= alpha < beta <= INFINITE && (node.pv() || alpha == beta - 1)
}

/// What every search keeps of its thread: the plies before its own, the ply of
/// the null move search it is part of, and a stop once it is ordered.
pub open spec fn keeps(before: ThreadModel, after: ThreadModel, ply: int) -> bool {
    &&& after.id == before.id
    &&& before.stop ==> after.stop
    &&& after.nmr_ply == before.nmr_ply
    &&& after.sel_depth >= before.sel_depth
    &&& after.stack.len() == before.stack.len()
    &&& forall|i: int| 0 <= i < ply ==> #[trigger] after.stack[i] == before.stack[i]
}

/// The evaluation with its correction. It announces no forced win or loss.
pub fn adjust_eval(eval: Score, corr: i32) -> (r: Score)
    requires
        i32::MIN <= eval@ + corr <= i32::MAX,
    ensures
        r@ == adjusted(eval@, corr as int),
        !announces_mate(r@),
        !announces_mate(eval@ + corr) ==> r@ == eval@ + corr,
        in_range(r@),
{
    Score(eval.0 + corr).clamp_mate()
}

/// The line of a ply becomes `mv` followed by the line of the next ply.
pub fn update_pv(thread: &mut ThreadData, mv: Move, ply: usize)
    requires
        old(thread).wf(),
        ply < MAX_PLY,
    ensures
        final(thread).wf(),
        final(thread).lists() == old(thread).lists(),
        final(thread)@ == old(thread)@.with_line(ply as int, mv),
{
    let child = thread.pv(ply + 1).copied();
    thread.clear_pv(ply);
    thread.extend_pv(ply, mv, &child);
    assert(thread@.stack =~= old(thread)@.with_line(ply as int, mv).stack);
}

/// Whether the search has to stop.
pub(crate) fn check_stop<B: Backend>(thread: &ThreadData, shared: &mut B) -> (r: bool)
    ensures
        r == must_stop::<B>(World { t: thread@, s: old(shared).state() }),
        final(shared).state() == after_must_stop::<B>(
            World { t: thread@, s: old(shared).state() },
        ).s,
{
    thread.stop || shared.stop_search()
}

/// Stops the search, for every thread.
pub(crate) fn halt<B: Backend>(thread: &mut ThreadData, shared: &mut B) -> (r: Score)
    requires
        old(thread).wf(),
    ensures
        final(thread).wf(),
        final(thread).lists() == old(thread).lists(),
        ({
            let o = stopped::<B>(World { t: old(thread)@, s: old(shared).state() });
            r@ == o.score && final(thread)@ == o.w.t && final(shared).state() == o.w.s
        }),
{
    shared.set_stop(true);
    thread.stop = true;
    Score::zero()
}

/// Enters a node: clears its line if it may get one, and its best move.
pub(crate) fn enter(thread: &mut ThreadData, node: NodeType, ply: usize)
    requires
        old(thread).wf(),
        ply <= MAX_PLY,
    ensures
        final(thread).wf(),
        final(thread).lists() == old(thread).lists(),
        final(thread)@ == entered(old(thread)@, node, ply as int),
        keeps(old(thread)@, final(thread)@, ply as int),
{
    if node.is_pv() {
        thread.clear_pv(ply);
    }
    thread.set_mv(ply, None);
    if thread.sel_depth < ply {
        thread.sel_depth = ply;
    }
}

/// The score of a node where the game is over.
pub(crate) fn check_game_over<R: Rules>(
    pos: &Position,
    rules: &R,
    node: NodeType,
    ply: usize,
) -> (r: Option<Score>)
    requires
        pos.wf(),
        ply <= MAX_PLY,
    ensures
        r is Some <==> game_over(rules, pos@, node, ply as int) is Some,
        r matches Some(score) ==> game_over(rules, pos@, node, ply as int) == Some(score@)
            && in_range(score@),
        r is None ==> pos@.board().king_square(pos@.board().stm) is Some,
{
    let board = pos.board();
    if board.try_king(board.stm()).is_none() {
        return Some(Score::mated(ply));
    }
    if board.hmc() >= 100 {
        return Some(Score::draw());
    }
    if !node.is_root() && pos.repetition(rules) {
        return Some(Score::draw());
    }
    None
}

/// Forgets the line and the best move of a ply that a move skips.
pub(crate) fn skip_ply(thread: &mut ThreadData, ply: usize)
    requires
        old(thread).wf(),
        ply <= MAX_PLY,
    ensures
        final(thread).wf(),
        final(thread).lists() == old(thread).lists(),
        final(thread)@ == old(thread)@.with_pv(ply as int, Seq::empty()).with_mv(
            ply as int,
            None,
        ),
        keeps(old(thread)@, final(thread)@, ply as int),
{
    thread.clear_pv(ply);
    thread.set_mv(ply, None);
}

/// Makes a move the best of its node.
pub(crate) fn raise(thread: &mut ThreadData, mv: Move, node: NodeType, ply: usize)
    requires
        old(thread).wf(),
        ply < MAX_PLY,
    ensures
        final(thread).wf(),
        final(thread).lists() == old(thread).lists(),
        final(thread)@ == raised(old(thread)@, mv, node, ply as int),
        keeps(old(thread)@, final(thread)@, ply as int),
{
    thread.set_mv(ply, Some(mv));
    if node.is_pv() {
        update_pv(thread, mv, ply);
    }
}

/// The state of a quiescence node between moves.
struct QuietNode {
    picker: MovePicker,
    alpha: Score,
    best_score: Score,
    ducks: DuckTables,
}

impl QuietNode {
    spec fn model(&self, list: Seq<ScoredMove>) -> QuietTally {
        QuietTally {
            picker: self.picker@,
            list,
            alpha: self.alpha@,
            best_score: self.best_score@,
            ducks_by_move: self.ducks.by_move(),
            duck_counts: self.ducks.counts(),
            duck_refutations: self.ducks.refutations(),
            duck_safety: self.ducks.safety(),
        }
    }

    spec fn wf(&self) -> bool {
        self.ducks.wf() && self.ducks.refutations().len() == 64 && in_range(self.best_score@)
    }
}

/// Plays a noisy move and searches what follows.
fn search_noisy<R: Rules, B: Backend>(
    pos: &mut Position,
    thread: &mut ThreadData,
    rules: &R,
    shared: &mut B,
    quiet: &QuietNode,
    node: NodeType,
    beta: Score,
    ply: usize,
    mv: Move,
    safe: bool,
) -> (r: Score)
    requires
        old(pos).wf(),
        old(thread).wf(),
        old(thread).lists().len() <= ply + 1,
        0 < ply < MAX_PLY,
        quiet.wf(),
        window(node, quiet.alpha@, beta@),
        legal(rules, old(pos)@.board(), mv),
    ensures
        final(pos).wf(),
        final(pos)@ == old(pos)@,
        final(thread).wf(),
        final(thread).lists() == old(thread).lists(),
        keeps(old(thread)@, final(thread)@, ply + 1),
        in_range(r@),
        node.pv() && !final(thread)@.stop ==> playable(
            rules,
            old(pos)@.after_move(rules, mv),
            final(thread)@.stack[ply + 1].pv,
        ),
        forall|list: Seq<ScoredMove>|
            safe == quiet.model(list).safe(mv).contains(mv.duck) ==> {
                let o = #[trigger] noisy_searched::<R, B>(
                    rules,
                    old(pos)@,
                    World { t: old(thread)@, s: old(shared).state() },
                    quiet.model(list),
                    node,
                    beta@,
                    ply as int,
                    mv,
                );
                r@ == o.score && final(thread)@ == o.w.t && final(shared).state() == o.w.s
            },
    decreases MAX_PLY - ply, 0nat,
{
    proof {
        reveal(noisy_searched);
        reveal(quiesced);
        unmake_undoes_make(
            old(pos)@,
            rules.played(old(pos)@.board(), mv),
            Some(mv),
        );
    }
    pos.make_move(rules, mv);
    let score = if !safe && pos.board().hmc() < 100 && !pos.repetition(rules) {
        skip_ply(thread, ply + 1);
        Score::mated(ply + 2)
    } else {
        qsearch(
            pos,
            thread,
            rules,
            shared,
            node,
            beta.negated(),
            quiet.alpha.negated(),
            ply + 1,
        ).negated()
    };
    pos.unmake_move();
    score
}

/// Searches the noisy moves of a node. `None` if the search was stopped.
fn search_noisies<R: Rules, B: Backend>(
    pos: &mut Position,
    thread: &mut ThreadData,
    rules: &R,
    shared: &mut B,
    start: QuietNode,
    node: NodeType,
    beta: Score,
    ply: usize,
) -> (r: Option<Score>)
    requires
        old(pos).wf(),
        old(pos)@.board().king_square(old(pos)@.board().stm) is Some,
        old(thread).wf(),
        0 < old(thread).lists().len() <= ply + 1,
        old(thread).lists().last().len() == 0,
        node.pv() ==> old(thread)@.stack[ply as int].pv.len() == 0,
        0 < ply < MAX_PLY,
        start.wf(),
        start.picker@.cursor == 0,
        window(node, start.alpha@, beta@),
    ensures
        final(pos).wf(),
        final(pos)@ == old(pos)@,
        final(thread).wf(),
        final(thread).lists().drop_last() == old(thread).lists().drop_last(),
        final(thread).lists().len() == old(thread).lists().len(),
        keeps(old(thread)@, final(thread)@, ply as int),
        r is None ==> final(thread)@.stop,
        node.pv() && !final(thread)@.stop ==> playable(
            rules,
            old(pos)@,
            final(thread)@.stack[ply as int].pv,
        ),
        r matches Some(score) ==> in_range(score@),
        ({
            let (score, w) = noisies_searched::<R, B>(
                rules,
                old(pos)@,
                World { t: old(thread)@, s: old(shared).state() },
                start.model(Seq::empty()),
                node,
                beta@,
                ply as int,
            );
            &&& r is Some <==> score is Some
            &&& r matches Some(found) ==> score == Some(found@)
            &&& final(thread)@ == w.t
            &&& final(shared).state() == w.s
        }),
    decreases MAX_PLY - ply, 1nat,
{
    let ghost p = pos@;
    let ghost lists = thread.lists();
    let ghost goal = noisies_searched::<R, B>(
        rules,
        p,
        World { t: thread@, s: shared.state() },
        start.model(Seq::empty()),
        node,
        beta@,
        ply as int,
    );
    let mut quiet = start;
    assert(lists.last() =~= Seq::empty());
    loop
        invariant
            pos.wf(),
            pos@ == p,
            p == old(pos)@,
            p.board().king_square(p.board().stm) is Some,
            thread.wf(),
            lists == old(thread).lists(),
            0 < lists.len() <= ply + 1,
            thread.lists().len() == lists.len(),
            thread.lists().drop_last() == lists.drop_last(),
            all_legal(rules, p.board(), thread.lists().last()),
            0 <= quiet.picker@.cursor <= thread.lists().last().len(),
            0 < ply < MAX_PLY,
            quiet.wf(),
            window(node, quiet.alpha@, beta@),
            keeps(old(thread)@, thread@, ply as int),
            node.pv() && !thread@.stop ==> playable(rules, p, thread@.stack[ply as int].pv),
            goal == noisies_searched::<R, B>(
                rules,
                old(pos)@,
                World { t: old(thread)@, s: old(shared).state() },
                start.model(Seq::empty()),
                node,
                beta@,
                ply as int,
            ),
            goal == noisies_searched::<R, B>(
                rules,
                p,
                World { t: thread@, s: shared.state() },
                quiet.model(thread.lists().last()),
                node,
                beta@,
                ply as int,
            ),
        decreases
                quiet.picker@.stage.ahead(),
                thread.lists().last().len() - quiet.picker@.cursor,
    {
        let ghost list = thread.lists().last();
        let ghost w = World { t: thread@, s: shared.state() };
        proof {
            reveal(noisies_searched);
            reveal(noisy_searched);
            turns_run_out::<R, B>(rules, shared.state(), p, quiet.picker@, list);
        }
        let ghost before = thread.lists();
        let next = quiet.picker.next(pos, thread, rules, shared);
        assert(thread.lists().drop_last() =~= before.drop_last());
        let mv = match next {
            Some(mv) => mv,
            None => {
                return Some(quiet.best_score);
            },
        };
        if quiet.ducks.refutes(mv.dest().index(), mv.duck()) {
            continue;
        }
        let safe = quiet.ducks.find_safe(rules, pos.board(), mv);
        if safe.is_full() && quiet.ducks.tried(mv) >= B::qsldp_threshold() {
            continue;
        }
        if !node.is_pv() && quiet.ducks.crowd(mv) >= B::qsdcp_threshold() {
            continue;
        }
        quiet.ducks.count(mv);
        let is_safe = safe.has(mv.duck());
        let ghost now = thread.lists().last();
        let ghost counted = quiet.model(now);
        let score = search_noisy(
            pos,
            thread,
            rules,
            shared,
            &quiet,
            node,
            beta,
            ply,
            mv,
            is_safe,
        );
        let ghost found = noisy_searched::<R, B>(
            rules,
            p,
            w,
            counted,
            node,
            beta@,
            ply as int,
            mv,
        );
        assert(score@ == found.score && thread@ == found.w.t && shared.state() == found.w.s);
        if thread.stop {
            return None;
        }
        let reply = thread.mv(ply + 1);
        quiet.ducks.learn(mv.dest().index(), reply);
        if score.0 > quiet.best_score.0 {
            quiet.best_score = score;
        }
        if score.0 > quiet.alpha.0 {
            quiet.alpha = score;
            proof {
                if node.pv() {
                    lines_grow_from_the_front(rules, p, mv, thread@.stack[ply + 1].pv);
                }
            }
            raise(thread, mv, node, ply);
            if score.0 >= beta.0 {
                return Some(quiet.best_score);
            }
        }
    }
}

/// Searches noisy moves until the position is quiet, for a score between alpha
/// and beta. A side may stand pat on the evaluation.
pub fn qsearch<R: Rules, B: Backend>(
    pos: &mut Position,
    thread: &mut ThreadData,
    rules: &R,
    shared: &mut B,
    node: NodeType,
    alpha: Score,
    beta: Score,
    ply: usize,
) -> (r: Score)
    requires
        old(pos).wf(),
        old(thread).wf(),
        0 < ply,
        ply < MAX_PLY ==> old(thread).lists().len() <= ply && window(node, alpha@, beta@),
    ensures
        final(pos).wf(),
        final(pos)@ == old(pos)@,
        final(thread).wf(),
        final(thread).lists() == old(thread).lists(),
        keeps(old(thread)@, final(thread)@, ply as int),
        in_range(r@),
        ply <= MAX_PLY && node.pv() && !final(thread)@.stop ==> playable(
            rules,
            old(pos)@,
            final(thread)@.stack[ply as int].pv,
        ),
        ({
            let o = quiesced::<R, B>(
                rules,
                old(pos)@,
                World { t: old(thread)@, s: old(shared).state() },
                node,
                alpha@,
                beta@,
                ply as int,
            );
            r@ == o.score && final(thread)@ == o.w.t && final(shared).state() == o.w.s
        }),
    decreases MAX_PLY - ply, 2nat,
{
    proof {
        reveal(quiesced);
        reveal(noisies_searched);
    }
    shared.count_node();
    if check_stop(thread, shared) {
        return halt(thread, shared);
    }
    if ply >= MAX_PLY {
        let board = pos.board();
        return adjust_eval(shared.eval(board), shared.corr(board));
    }
    enter(thread, node, ply);
    if let Some(score) = check_game_over(pos, rules, NodeType::NonPV, ply) {
        return score;
    }
    let tt_entry = shared.probe(pos.board().hash());
    // Quiet moves are not searched here, so only a noisy one is of use.
    let mut tt_move: Option<Move> = None;
    if let Some(entry) = tt_entry {
        if let Some(mv) = entry.best_move {
            if mv.flag().is_noisy() {
                tt_move = Some(mv);
            }
        }
        if entry.flag.bounds_match(entry.score, alpha, beta) {
            return entry.score;
        }
    }
    let raw_eval = shared.eval(pos.board());
    let static_eval = adjust_eval(raw_eval, shared.corr(pos.board()));
    if static_eval.0 >= beta.0 {
        return static_eval;
    }
    let alpha = if static_eval.0 > alpha.0 {
        static_eval
    } else {
        alpha
    };
    thread.set_evals(ply, raw_eval, static_eval);
    let ghost lists = thread.lists();
    thread.move_stack.push_ply();
    let mut picker = MovePicker::new(tt_move);
    picker.skip_quiets();
    let quiet = QuietNode {
        picker,
        alpha,
        best_score: static_eval,
        ducks: DuckTables::new(64),
    };
    proof {
        assert(thread.lists().drop_last() =~= lists);
        assert(quiet.model(Seq::empty()) == fresh_quiet_tally(
            tt_move,
            alpha@,
            static_eval@,
        ));
    }
    let found = search_noisies(pos, thread, rules, shared, quiet, node, beta, ply);
    thread.move_stack.pop_ply();
    match found {
        Some(score) => score,
        None => Score::zero(),
    }
}

} // verus!
