//! The alpha-beta search.

use crate::board::board::BoardModel;
use crate::common::moves::Move;
use crate::position::{lines_grow_from_the_front, playable, unmake_undoes_make, Position};
use crate::rules::{has_moves, legal, Rules};
use crate::score::{in_range, Score};
use crate::search::backend::{moderate, Backend, TTFlag};
use crate::search::ducks::DuckTables;
use crate::search::model::{
    all_searched, concluded, consulted, consulted_duckless, fresh_tally, first_pick_finds_a_move,
    game_over, improves, move_searched, moves_searched, node_searched, node_unfolds,
    null_move_tried, reach, route, searched, settled_at_last_ply, turns_run_out, weighed, Exhausted,
    NodeType, Searched, Step, Tally, World,
};
use crate::search::move_picker::{all_legal, MovePicker};
use crate::search::move_stack::ScoredMove;
use crate::search::ordering::same_move;
use crate::search::quiescence::{
    adjust_eval, check_game_over, check_stop, enter, halt, keeps, qsearch, raise, skip_ply,
    update_pv, window,
};
use crate::search::thread::{score_value, ThreadData, ThreadModel};
use crate::search::MAX_PLY;
use vstd::prelude::*;

verus! {

/// Looks the position up without its duck.
fn consult_duckless<R: Rules, B: Backend>(
    pos: &Position,
    thread: &mut ThreadData,
    rules: &R,
    shared: &mut B,
    node: NodeType,
    beta: Score,
    depth: i32,
    ply: usize,
    tt_move: Option<Move>,
) -> (r: (Option<Score>, Option<Move>))
    requires
        pos.wf(),
        old(thread).wf(),
        ply <= MAX_PLY,
    ensures
        final(thread).wf(),
        final(thread).lists() == old(thread).lists(),
        keeps(old(thread)@, final(thread)@, ply as int),
        r.0 matches Some(score) ==> in_range(score@),
        final(thread)@.stack[ply as int].pv == old(thread)@.stack[ply as int].pv,
        ({
            let c = consulted_duckless::<R, B>(
                rules,
                pos@.board(),
                World { t: old(thread)@, s: old(shared).state() },
                node,
                beta@,
                depth as int,
                ply as int,
                tt_move,
            );
            &&& score_value(r.0) == c.settled
            &&& r.1 == c.tt_move
            &&& final(thread)@ == c.w.t
            &&& final(shared).state() == c.w.s
        }),
{
    proof {
        reveal(consulted_duckless);
    }
    if let Some(entry) = shared.probe(pos.board().duckless_hash()) {
        if entry.flag == TTFlag::Lower && !entry.score.is_mate() {
            let cutoff = !node.is_pv() && entry.depth >= depth && entry.score.0 >= beta.0;
            if cutoff || tt_move.is_none() {
                if let Some(mv) = entry.best_move {
                    if rules.is_legal(pos.board(), mv) {
                        if cutoff {
                            thread.set_mv(ply, Some(mv));
                            return (Some(entry.score), tt_move);
                        }
                        return (None, Some(mv));
                    }
                }
            }
        }
    }
    (None, tt_move)
}

/// Looks the position up: a score that settles the node, or a move to try first.
fn consult<R: Rules, B: Backend>(
    pos: &Position,
    thread: &mut ThreadData,
    rules: &R,
    shared: &mut B,
    node: NodeType,
    alpha: Score,
    beta: Score,
    depth: i32,
    ply: usize,
) -> (r: (Option<Score>, Option<Move>))
    requires
        pos.wf(),
        old(thread).wf(),
        ply <= MAX_PLY,
    ensures
        final(thread).wf(),
        final(thread).lists() == old(thread).lists(),
        keeps(old(thread)@, final(thread)@, ply as int),
        r.0 matches Some(score) ==> in_range(score@),
        final(thread)@.stack[ply as int].pv == old(thread)@.stack[ply as int].pv,
        node is Root ==> r.0 is None && final(thread)@ == old(thread)@,
        ({
            let c = consulted::<R, B>(
                rules,
                pos@.board(),
                World { t: old(thread)@, s: old(shared).state() },
                node,
                alpha@,
                beta@,
                depth as int,
                ply as int,
            );
            &&& score_value(r.0) == c.settled
            &&& r.1 == c.tt_move
            &&& final(thread)@ == c.w.t
            &&& final(shared).state() == c.w.s
        }),
{
    proof {
        reveal(consulted);
        reveal(consulted_duckless);
    }
    let tt_entry = shared.probe(pos.board().hash());
    let mut tt_move: Option<Move> = None;
    if let Some(entry) = tt_entry {
        tt_move = entry.best_move;
        if !node.is_root() && entry.depth >= depth && entry.flag.bounds_match(
            entry.score,
            alpha,
            beta,
        ) {
            return (Some(entry.score), tt_move);
        }
    }
    if !node.is_pv() || tt_move.is_none() {
        return consult_duckless(pos, thread, rules, shared, node, beta, depth, ply, tt_move);
    }
    (None, tt_move)
}

/// Whether the evaluation is better than at this side's last turn, or at the one
/// before if that one has no evaluation.
pub fn is_improving(thread: &ThreadData, ply: usize, static_eval: Score) -> (r: bool)
    requires
        thread.wf(),
        ply <= MAX_PLY,
    ensures
        r == improves(thread@, ply as int, static_eval@),
{
    if ply >= 2 {
        if let Some(earlier) = thread.static_eval(ply - 2) {
            return static_eval.0 > earlier.0;
        }
    }
    if ply >= 4 {
        if let Some(earlier) = thread.static_eval(ply - 4) {
            return static_eval.0 > earlier.0;
        }
    }
    true
}

/// Lets the opponent move twice in a row. The score, if the node is settled by it.
fn null_move<R: Rules, B: Backend>(
    pos: &mut Position,
    thread: &mut ThreadData,
    rules: &R,
    shared: &mut B,
    alpha: Score,
    beta: Score,
    depth: i32,
    ply: usize,
) -> (r: Option<Score>)
    requires
        old(pos).wf(),
        old(thread).wf(),
        ply < MAX_PLY ==> old(thread).lists().len() <= ply,
        depth >= 4,
        0 < ply <= MAX_PLY,
        window(NodeType::NonPV, alpha@, beta@),
    ensures
        final(pos).wf(),
        final(pos)@ == old(pos)@,
        final(thread).wf(),
        final(thread).lists() == old(thread).lists(),
        keeps(old(thread)@, final(thread)@, ply as int),
        r matches Some(score) ==> in_range(score@),
        ({
            let (settled, w) = null_move_tried::<R, B>(
                rules,
                old(pos)@,
                World { t: old(thread)@, s: old(shared).state() },
                alpha@,
                beta@,
                depth as int,
                ply as int,
            );
            &&& score_value(r) == settled
            &&& final(thread)@ == w.t
            &&& final(shared).state() == w.s
        }),
    decreases reach(depth as int), 2nat,
{
    let ghost passed = rules.passed(pos@.board());
    proof {
        reveal(null_move_tried);
        reveal(searched);
        unmake_undoes_make(pos@, passed, None);
    }
    pos.make_null_move(rules);
    let score = search(
        pos,
        thread,
        rules,
        shared,
        NodeType::NonPV,
        beta.negated(),
        Score(-beta.0 + 1),
        depth - 3,
        ply + 1,
    ).negated();
    pos.unmake_move();
    if thread.stop {
        return Some(Score::zero());
    }
    if score.0 >= beta.0 {
        if thread.nmr_ply.is_some() {
            return Some(score);
        }
        thread.nmr_ply = Some(ply);
        let score = search(
            pos,
            thread,
            rules,
            shared,
            NodeType::NonPV,
            alpha,
            beta,
            depth / 2,
            ply,
        );
        thread.nmr_ply = None;
        if score.0 >= beta.0 {
            return Some(score);
        }
    }
    None
}

/// The state of a node between moves.
struct MoveLoop {
    picker: MovePicker,
    alpha: Score,
    best_move: Option<Move>,
    best_move_depth: i32,
    best_score: Option<Score>,
    legal_moves: u32,
    searched_moves: u32,
    failed_quiets: Vec<Move>,
    failed_noisies: Vec<Move>,
    ducks: DuckTables,
    flag: TTFlag,
}

impl MoveLoop {
    spec fn model(&self, list: Seq<ScoredMove>) -> Tally {
        Tally {
            picker: self.picker@,
            list,
            alpha: self.alpha@,
            best_move: self.best_move,
            best_move_depth: self.best_move_depth as int,
            best_score: score_value(self.best_score),
            legal_moves: self.legal_moves,
            searched_moves: self.searched_moves,
            failed_quiets: self.failed_quiets@,
            failed_noisies: self.failed_noisies@,
            ducks_by_move: self.ducks.by_move(),
            duck_counts: self.ducks.counts(),
            duck_refutations: self.ducks.refutations(),
            duck_safety: self.ducks.safety(),
            flag: self.flag,
        }
    }

    /// The tables have their sizes, the scores are in range, and the first move
    /// of a node is searched, whatever the tables say later.
    spec fn wf(&self) -> bool {
        &&& self.ducks.wf()
        &&& self.ducks.refutations().len() == 4096
        &&& self.best_score matches Some(score) ==> in_range(score@)
        &&& self.legal_moves > 0 ==> self.best_score is Some && self.searched_moves > 0
        &&& self.legal_moves == 0 ==> self.best_score is None && self.searched_moves == 0
            && self.untried()
    }

    /// No duck square has been tried.
    spec fn untried(&self) -> bool {
        &&& forall|i: int|
            0 <= i < self.ducks.by_move().len() ==> #[trigger] self.ducks.by_move()[i] == 0
        &&& forall|i: int|
            0 <= i < self.ducks.counts().len() ==> #[trigger] self.ducks.counts()[i] == 0
        &&& forall|i: int|
            0 <= i < self.ducks.refutations().len() ==> #[trigger] self.ducks.refutations()[i]
                == Set::<crate::common::types::Square>::empty()
    }

    fn new(tt_move: Option<Move>, alpha: Score, depth: i32) -> (r: MoveLoop)
        ensures
            r.wf(),
            r.model(Seq::empty()) == fresh_tally(tt_move, alpha@, depth as int),
    {
        MoveLoop {
            picker: MovePicker::new(tt_move),
            alpha,
            best_move: None,
            best_move_depth: depth,
            best_score: None,
            legal_moves: 0,
            searched_moves: 0,
            failed_quiets: Vec::new(),
            failed_noisies: Vec::new(),
            ducks: DuckTables::new(4096),
            flag: TTFlag::Upper,
        }
    }
}

/// Plays a move and searches what follows. The score, and the depth searched to.
fn search_move<R: Rules, B: Backend>(
    pos: &mut Position,
    thread: &mut ThreadData,
    rules: &R,
    shared: &mut B,
    tally: &MoveLoop,
    node: NodeType,
    beta: Score,
    depth: i32,
    ply: usize,
    mv: Move,
    safe: bool,
) -> (r: (Score, i32))
    requires
        old(pos).wf(),
        old(thread).wf(),
        old(thread).lists().len() <= ply + 1,
        depth > 0,
        ply < MAX_PLY,
        tally.ducks.wf(),
        window(node, tally.alpha@, beta@),
        legal(rules, old(pos)@.board(), mv),
    ensures
        final(pos).wf(),
        final(pos)@ == old(pos)@,
        final(thread).wf(),
        final(thread).lists() == old(thread).lists(),
        keeps(old(thread)@, final(thread)@, ply + 1),
        in_range(r.0@),
        node.pv() && !final(thread)@.stop && (tally.legal_moves == 1 || r.0@ > tally.alpha@)
            ==> playable(
            rules,
            old(pos)@.after_move(rules, mv),
            final(thread)@.stack[ply + 1].pv,
        ),
        forall|list: Seq<ScoredMove>|
            safe == tally.model(list).safe(mv).contains(mv.duck) ==> {
                let o = #[trigger] move_searched::<R, B>(
                    rules,
                    old(pos)@,
                    World { t: old(thread)@, s: old(shared).state() },
                    tally.model(list),
                    node,
                    beta@,
                    depth as int,
                    ply as int,
                    mv,
                );
                &&& r.0@ == o.score
                &&& r.1 == o.depth
                &&& final(thread)@ == o.w.t
                &&& final(shared).state() == o.w.s
            },
    decreases reach(depth as int), 1nat,
{
    let ghost played = rules.played(pos@.board(), mv);
    proof {
        reveal(move_searched);
        reveal(searched);
        unmake_undoes_make(pos@, played, Some(mv));
    }
    pos.make_move(rules, mv);
    let mut move_depth: i32 = depth;
    let score = if !safe && pos.board().hmc() < 100 && !pos.repetition(rules) {
        skip_ply(thread, ply + 1);
        Score::mated(ply + 2)
    } else {
        let mut score = Score::infinite().negated();
        if !node.is_pv() || tally.legal_moves > 1 {
            let reduction: i32 = if depth >= 3 && tally.searched_moves > 6
                && mv.flag().is_quiet() {
                1
            } else {
                0
            };
            move_depth = depth - reduction;
            score =
            search(
                pos,
                thread,
                rules,
                shared,
                NodeType::NonPV,
                Score(-tally.alpha.0 - 1),
                tally.alpha.negated(),
                depth - 1 - reduction,
                ply + 1,
            ).negated();
        }
        if node.is_pv() && (tally.legal_moves == 1 || score.0 > tally.alpha.0) {
            move_depth = depth;
            score =
            search(
                pos,
                thread,
                rules,
                shared,
                NodeType::PV,
                beta.negated(),
                tally.alpha.negated(),
                depth - 1,
                ply + 1,
            ).negated();
        }
        score
    };
    pos.unmake_move();
    (score, move_depth)
}

/// Whether the line of a ply starts with a legal move.
pub open spec fn has_line<R: Rules>(
    rules: &R,
    b: BoardModel,
    t: ThreadModel,
    ply: int,
) -> bool {
    t.stack[ply].pv.len() > 0 && legal(rules, b, t.stack[ply].pv[0])
}

/// What comes after a move.
enum Verdict {
    Stopped,
    Cutoff,
    Next,
}

/// Weighs a move's score.
fn weigh<B: Backend>(
    pos: &Position,
    thread: &mut ThreadData,
    shared: &mut B,
    tally: &mut MoveLoop,
    node: NodeType,
    beta: Score,
    depth: i32,
    ply: usize,
    mv: Move,
    score: Score,
    move_depth: i32,
) -> (r: Verdict)
    requires
        pos.wf(),
        old(thread).wf(),
        ply < MAX_PLY,
        old(tally).ducks.wf(),
        old(tally).ducks.refutations().len() == 4096,
        old(tally).legal_moves > 0,
        old(tally).best_score matches Some(best) ==> in_range(best@),
        window(node, old(tally).alpha@, beta@),
        in_range(score@),
    ensures
        final(thread).wf(),
        final(thread).lists() == old(thread).lists(),
        keeps(old(thread)@, final(thread)@, ply as int),
        final(tally).picker == old(tally).picker,
        r is Stopped ==> final(thread)@.stop,
        !(r is Stopped) ==> final(tally).wf() && final(tally).legal_moves > 0,
        r is Next ==> window(node, final(tally).alpha@, beta@),
        !(r is Stopped) && node.pv() ==> final(thread)@.stack[ply as int].pv == if score@ > old(
            tally,
        ).alpha@ || node is Root && old(tally).searched_moves == 0 {
            seq![mv] + old(thread)@.stack[ply + 1].pv
        } else {
            old(thread)@.stack[ply as int].pv
        },
        node is Root ==> final(thread)@.stack[ply as int].pv == old(thread)@.stack[ply as int].pv
            && old(tally).searched_moves > 0 || final(thread)@.stack[ply as int].pv.len() > 0
            && final(thread)@.stack[ply as int].pv[0] == mv,
        forall|list: Seq<ScoredMove>, depth_searched: int|
            depth_searched == move_depth ==> {
                let step = #[trigger] weighed::<B>(
                    pos@,
                    old(tally).model(list),
                    Searched {
                        score: score@,
                        depth: depth_searched,
                        w: World { t: old(thread)@, s: old(shared).state() },
                    },
                    node,
                    beta@,
                    depth as int,
                    ply as int,
                    mv,
                );
                let w = World { t: final(thread)@, s: final(shared).state() };
                match r {
                    Verdict::Next => step == Step::On(final(tally).model(list), w),
                    _ => step == Step::End(
                        Exhausted { tally: final(tally).model(list), w, stopped: r is Stopped },
                    ),
                }
            },
{
    proof {
        reveal(weighed);
        crate::common::types::square_numbers_are_exact(mv.src, 0);
        crate::common::types::square_numbers_are_exact(mv.dest, 0);
    }
    if node.is_root() && tally.searched_moves == 0 {
        update_pv(thread, mv, ply);
    }
    if thread.stop {
        return Verdict::Stopped;
    }
    let reply = thread.mv(ply + 1);
    tally.ducks.learn(mv.src().index() * 64 + mv.dest().index(), reply);
    tally.searched_moves = tally.searched_moves.saturating_add(1);
    let improved = match tally.best_score {
        Some(best) => score.0 > best.0,
        None => true,
    };
    if improved {
        tally.best_score = Some(score);
    }
    if score.0 > tally.alpha.0 {
        tally.alpha = score;
        tally.best_move = Some(mv);
        tally.best_move_depth = move_depth;
        tally.flag = TTFlag::Exact;
        raise(thread, mv, node, ply);
        if score.0 >= beta.0 {
            tally.flag = TTFlag::Lower;
            shared.update(pos, depth, mv, &tally.failed_quiets, &tally.failed_noisies);
            return Verdict::Cutoff;
        }
    }
    if !same_move(tally.best_move, mv) {
        if mv.flag().is_noisy() {
            tally.failed_noisies.push(mv);
        } else {
            tally.failed_quiets.push(mv);
        }
    }
    Verdict::Next
}

/// Searches the moves of a node. Whether the search was stopped.
#[verifier::rlimit(50)]
fn search_moves<R: Rules, B: Backend>(
    pos: &mut Position,
    thread: &mut ThreadData,
    rules: &R,
    shared: &mut B,
    tally: &mut MoveLoop,
    node: NodeType,
    beta: Score,
    depth: i32,
    ply: usize,
    improving: bool,
) -> (r: bool)
    requires
        old(pos).wf(),
        old(pos)@.board().king_square(old(pos)@.board().stm) is Some,
        old(thread).wf(),
        0 < old(thread).lists().len() <= ply + 1,
        old(thread).lists().last().len() == 0,
        node.pv() ==> old(thread)@.stack[ply as int].pv.len() == 0,
        depth > 0,
        ply < MAX_PLY,
        old(tally).wf(),
        exists|tt_move: Option<Move>|
            old(tally).model(Seq::empty()) == #[trigger] fresh_tally(
                tt_move,
                old(tally).alpha@,
                depth as int,
            ),
        window(node, old(tally).alpha@, beta@),
    ensures
        final(pos).wf(),
        final(pos)@ == old(pos)@,
        final(thread).wf(),
        final(thread).lists().drop_last() == old(thread).lists().drop_last(),
        final(thread).lists().len() == old(thread).lists().len(),
        keeps(old(thread)@, final(thread)@, ply as int),
        r ==> final(thread)@.stop,
        node.pv() && !final(thread)@.stop ==> playable(
            rules,
            old(pos)@,
            final(thread)@.stack[ply as int].pv,
        ),
        !r ==> final(tally).wf(),
        !r && final(tally).legal_moves == 0 ==> !has_moves(rules, old(pos)@.board()),
        node is Root && (r || final(tally).legal_moves > 0) ==> has_line(
            rules,
            old(pos)@.board(),
            final(thread)@,
            ply as int,
        ),
        ({
            let end = moves_searched::<R, B>(
                rules,
                old(pos)@,
                World { t: old(thread)@, s: old(shared).state() },
                old(tally).model(Seq::empty()),
                node,
                beta@,
                depth as int,
                ply as int,
                improving,
            );
            &&& r == end.stopped
            &&& final(thread)@ == end.w.t
            &&& final(shared).state() == end.w.s
            &&& end.tally == final(tally).model(end.tally.list)
        }),
    decreases reach(depth as int), 2nat,
{
    let ghost p = pos@;
    let ghost b = p.board();
    let ghost lists = thread.lists();
    let ghost goal = moves_searched::<R, B>(
        rules,
        p,
        World { t: thread@, s: shared.state() },
        tally.model(Seq::empty()),
        node,
        beta@,
        depth as int,
        ply as int,
        improving,
    );
    assert(lists.last() =~= Seq::empty());
    loop
        invariant
            pos.wf(),
            pos@ == p,
            p == old(pos)@,
            b == p.board(),
            b.king_square(b.stm) is Some,
            thread.wf(),
            lists == old(thread).lists(),
            0 < lists.len() <= ply + 1,
            thread.lists().len() == lists.len(),
            thread.lists().drop_last() == lists.drop_last(),
            all_legal(rules, b, thread.lists().last()),
            0 <= tally.picker@.cursor <= thread.lists().last().len(),
            depth > 0,
            ply < MAX_PLY,
            tally.wf(),
            tally.legal_moves == 0 ==> tally.picker@ == old(tally).picker@
                && thread.lists().last() == Seq::<ScoredMove>::empty(),
            old(tally).picker@ == fresh_tally(
                old(tally).picker@.tt_move,
                old(tally).alpha@,
                depth as int,
            ).picker,
            window(node, tally.alpha@, beta@),
            keeps(old(thread)@, thread@, ply as int),
            node.pv() && !thread@.stop ==> playable(rules, p, thread@.stack[ply as int].pv),
            node is Root && tally.legal_moves > 0 ==> has_line(rules, b, thread@, ply as int),
            goal == moves_searched::<R, B>(
                rules,
                old(pos)@,
                World { t: old(thread)@, s: old(shared).state() },
                old(tally).model(Seq::empty()),
                node,
                beta@,
                depth as int,
                ply as int,
                improving,
            ),
            goal == moves_searched::<R, B>(
                rules,
                p,
                World { t: thread@, s: shared.state() },
                tally.model(thread.lists().last()),
                node,
                beta@,
                depth as int,
                ply as int,
                improving,
            ),
        decreases
                tally.picker@.stage.ahead(),
                thread.lists().last().len() - tally.picker@.cursor,
    {
        let ghost list = thread.lists().last();
        let ghost w = World { t: thread@, s: shared.state() };
        let ghost first = tally.legal_moves == 0;
        proof {
            reveal(moves_searched);
            reveal(move_searched);
            if first && has_moves(rules, b) {
                first_pick_finds_a_move::<R, B>(
                    rules,
                    shared.state(),
                    p,
                    old(tally).picker@.tt_move,
                    old(tally).alpha@,
                    depth as int,
                );
            }
            turns_run_out::<R, B>(rules, shared.state(), p, tally.picker@, list);
        }
        let ghost before = thread.lists();
        let next = tally.picker.next(pos, thread, rules, shared);
        assert(thread.lists().drop_last() =~= before.drop_last());
        let mv = match next {
            Some(mv) => mv,
            None => {
                return false;
            },
        };
        let is_quiet = mv.flag().is_quiet();
        let at = mv.src().index() * 64 + mv.dest().index();
        proof {
            crate::common::types::square_numbers_are_exact(mv.duck, 0);
            assert(at == route(mv));
            assert(first ==> tally.ducks.refutations()[at as int]
                == Set::<crate::common::types::Square>::empty());
        }
        tally.legal_moves = tally.legal_moves.saturating_add(1);
        // A reply that beats an earlier duck square beats those that do not stop it.
        if tally.ducks.refutes(at, mv.duck()) {
            assert(!first);
            continue;
        }
        let safe = tally.ducks.find_safe(rules, pos.board(), mv);
        // Late duck pruning: this move has been tried with enough duck squares.
        if safe.is_full() && depth <= B::ldp_depth(is_quiet) && tally.ducks.tried(mv)
            >= B::ldp_threshold(depth, is_quiet, improving) {
            assert(!first);
            continue;
        }
        // Duck count pruning: this duck square has been tried with enough moves.
        if !node.is_pv() && is_quiet && depth <= B::dcp_depth() && tally.ducks.crowd(mv)
            >= B::dcp_threshold(depth, improving) {
            assert(!first);
            continue;
        }
        tally.ducks.count(mv);
        let is_safe = safe.has(mv.duck());
        let ghost counted = tally.model(thread.lists().last());
        let (score, move_depth) = search_move(
            pos,
            thread,
            rules,
            shared,
            tally,
            node,
            beta,
            depth,
            ply,
            mv,
            is_safe,
        );
        let ghost found = move_searched::<R, B>(
            rules,
            p,
            w,
            counted,
            node,
            beta@,
            depth as int,
            ply as int,
            mv,
        );
        assert(score@ == found.score && move_depth == found.depth && thread@ == found.w.t
            && shared.state() == found.w.s);
        proof {
            if node.pv() && !thread@.stop && (tally.legal_moves == 1 || score@ > tally.alpha@) {
                lines_grow_from_the_front(rules, p, mv, thread@.stack[ply + 1].pv);
            }
        }
        match weigh(pos, thread, shared, tally, node, beta, depth, ply, mv, score, move_depth) {
            Verdict::Stopped => {
                return true;
            },
            Verdict::Cutoff => {
                return false;
            },
            Verdict::Next => {},
        }
    }
}

/// Stores the outcome of a node and learns from it.
fn conclude<B: Backend>(
    pos: &Position,
    shared: &mut B,
    tally: &MoveLoop,
    depth: i32,
    ply: usize,
    raw_eval: Score,
) -> (r: Score)
    requires
        pos.wf(),
        ply <= MAX_PLY,
        tally.wf(),
        moderate(raw_eval@),
    ensures
        in_range(r@),
        forall|t: ThreadModel, list: Seq<ScoredMove>|
            {
                let o = #[trigger] concluded::<B>(
                    pos@,
                    tally.model(list),
                    World { t, s: old(shared).state() },
                    depth as int,
                    ply as int,
                    raw_eval@,
                );
                r@ == o.score && o.w.t == t && final(shared).state() == o.w.s
            },
{
    proof {
        reveal(concluded);
    }
    // In duck chess a side without a legal move wins.
    let best_score = match tally.best_score {
        Some(score) => score,
        None => {
            return Score::mate(ply);
        },
    };
    let board = pos.board();
    if board.duck().is_some() && tally.best_move.is_some() && tally.flag != TTFlag::Upper
        && !best_score.is_mate() {
        shared.insert(
            board.duckless_hash(),
            tally.best_move,
            best_score,
            tally.best_move_depth,
            TTFlag::Lower,
        );
    }
    shared.insert(
        board.hash(),
        tally.best_move,
        best_score,
        tally.best_move_depth,
        tally.flag,
    );
    let static_eval = adjust_eval(raw_eval, shared.corr(board));
    let calm = match tally.best_move {
        Some(mv) => mv.flag().is_quiet(),
        None => true,
    };
    if calm && tally.flag.bounds_match(best_score, static_eval, static_eval) {
        shared.update_corr(board, depth, best_score, static_eval);
    }
    best_score
}

/// Searches the moves of a node from the first to the last, and concludes.
fn search_all<R: Rules, B: Backend>(
    pos: &mut Position,
    thread: &mut ThreadData,
    rules: &R,
    shared: &mut B,
    node: NodeType,
    alpha: Score,
    beta: Score,
    depth: i32,
    ply: usize,
    tt_move: Option<Move>,
    raw_eval: Score,
    improving: bool,
) -> (r: Score)
    requires
        old(pos).wf(),
        old(pos)@.board().king_square(old(pos)@.board().stm) is Some,
        old(thread).wf(),
        old(thread).lists().len() <= ply,
        node.pv() ==> old(thread)@.stack[ply as int].pv.len() == 0,
        depth > 0,
        ply < MAX_PLY,
        window(node, alpha@, beta@),
        moderate(raw_eval@),
    ensures
        final(pos).wf(),
        final(pos)@ == old(pos)@,
        final(thread).wf(),
        final(thread).lists() == old(thread).lists(),
        keeps(old(thread)@, final(thread)@, ply as int),
        in_range(r@),
        node.pv() && !final(thread)@.stop ==> playable(
            rules,
            old(pos)@,
            final(thread)@.stack[ply as int].pv,
        ),
        node is Root && has_moves(rules, old(pos)@.board()) ==> has_line(
            rules,
            old(pos)@.board(),
            final(thread)@,
            ply as int,
        ),
        ({
            let o = all_searched::<R, B>(
                rules,
                old(pos)@,
                World { t: old(thread)@, s: old(shared).state() },
                node,
                alpha@,
                beta@,
                depth as int,
                ply as int,
                tt_move,
                raw_eval@,
                improving,
            );
            r@ == o.score && final(thread)@ == o.w.t && final(shared).state() == o.w.s
        }),
    decreases reach(depth as int), 5nat,
{
    proof {
        reveal(all_searched);
        reveal(moves_searched);
    }
    let ghost lists = thread.lists();
    thread.move_stack.push_ply();
    let mut tally = MoveLoop::new(tt_move, alpha, depth);
    assert(thread.lists().drop_last() =~= lists);
    let halted = search_moves(
        pos,
        thread,
        rules,
        shared,
        &mut tally,
        node,
        beta,
        depth,
        ply,
        improving,
    );
    thread.move_stack.pop_ply();
    if halted {
        return Score::zero();
    }
    conclude(pos, shared, &tally, depth, ply, raw_eval)
}

/// Settles a node at the last ply, where no move can be followed up.
fn settle_last_ply<R: Rules, B: Backend>(
    pos: &Position,
    thread: &mut ThreadData,
    rules: &R,
    shared: &mut B,
    ply: usize,
    static_eval: Score,
) -> (r: Score)
    requires
        pos.wf(),
        old(thread).wf(),
        ply <= MAX_PLY,
        in_range(static_eval@),
    ensures
        final(thread).wf(),
        final(thread).lists() == old(thread).lists(),
        keeps(old(thread)@, final(thread)@, ply as int),
        final(thread)@.stack == old(thread)@.stack,
        in_range(r@),
        ({
            let o = settled_at_last_ply::<R, B>(
                rules,
                pos@,
                World { t: old(thread)@, s: old(shared).state() },
                ply as int,
                static_eval@,
            );
            r@ == o.score && final(thread)@ == o.w.t && final(shared).state() == o.w.s
        }),
{
    if !rules.any_moves(pos.board()) {
        return Score::mate(ply);
    }
    if check_stop(thread, shared) {
        return halt(thread, shared);
    }
    static_eval
}

/// Searches a node whose evaluation is known: first a null move, then the moves,
/// unless it stands at the last ply.
fn search_node<R: Rules, B: Backend>(
    pos: &mut Position,
    thread: &mut ThreadData,
    rules: &R,
    shared: &mut B,
    node: NodeType,
    alpha: Score,
    beta: Score,
    depth: i32,
    ply: usize,
    tt_move: Option<Move>,
    raw_eval: Score,
    static_eval: Score,
    improving: bool,
) -> (r: Score)
    requires
        old(pos).wf(),
        old(pos)@.board().king_square(old(pos)@.board().stm) is Some,
        old(thread).wf(),
        ply < MAX_PLY ==> old(thread).lists().len() <= ply,
        node.pv() ==> old(thread)@.stack[ply as int].pv.len() == 0,
        depth > 0,
        ply <= MAX_PLY,
        ply == 0 ==> node.pv() || depth < 4,
        window(node, alpha@, beta@),
        moderate(raw_eval@),
        in_range(static_eval@),
    ensures
        final(pos).wf(),
        final(pos)@ == old(pos)@,
        final(thread).wf(),
        final(thread).lists() == old(thread).lists(),
        keeps(old(thread)@, final(thread)@, ply as int),
        in_range(r@),
        node.pv() && !final(thread)@.stop ==> playable(
            rules,
            old(pos)@,
            final(thread)@.stack[ply as int].pv,
        ),
        node is Root && ply < MAX_PLY && has_moves(rules, old(pos)@.board()) ==> has_line(
            rules,
            old(pos)@.board(),
            final(thread)@,
            ply as int,
        ),
        ({
            let o = node_searched::<R, B>(
                rules,
                old(pos)@,
                World { t: old(thread)@, s: old(shared).state() },
                node,
                alpha@,
                beta@,
                depth as int,
                ply as int,
                tt_move,
                raw_eval@,
                static_eval@,
                improving,
            );
            r@ == o.score && final(thread)@ == o.w.t && final(shared).state() == o.w.s
        }),
    decreases reach(depth as int), 6nat,
{
    proof {
        node_unfolds::<R, B>(
            rules,
            pos@,
            World { t: thread@, s: shared.state() },
            node,
            alpha@,
            beta@,
            depth as int,
            ply as int,
            tt_move,
            raw_eval@,
            static_eval@,
            improving,
        );
    }
    let nmr_here = match thread.nmr_ply {
        Some(at) => at == ply,
        None => false,
    };
    if !node.is_pv() && depth >= 4 && !nmr_here && thread.mv(ply - 1).is_some() && static_eval.0
        >= beta.0 + B::nmr_margin() {
        if let Some(score) = null_move(pos, thread, rules, shared, alpha, beta, depth, ply) {
            return score;
        }
    }
    if ply >= MAX_PLY {
        return settle_last_ply(pos, thread, rules, shared, ply, static_eval);
    }
    search_all(
        pos,
        thread,
        rules,
        shared,
        node,
        alpha,
        beta,
        depth,
        ply,
        tt_move,
        raw_eval,
        improving,
    )
}

/// Searches a position to a depth, for a score between alpha and beta. Beyond the
/// last ply the evaluation stands. The position and the move lists are afterwards as
/// they were.
#[verifier::rlimit(50)]
pub fn search<R: Rules, B: Backend>(
    pos: &mut Position,
    thread: &mut ThreadData,
    rules: &R,
    shared: &mut B,
    node: NodeType,
    alpha: Score,
    beta: Score,
    depth: i32,
    ply: usize,
) -> (r: Score)
    requires
        old(pos).wf(),
        old(thread).wf(),
        ply < MAX_PLY ==> old(thread).lists().len() <= ply,
        ply == 0 ==> depth > 0 && (node.pv() || depth < 4),
        window(node, alpha@, beta@),
    ensures
        final(pos).wf(),
        final(pos)@ == old(pos)@,
        final(thread).wf(),
        final(thread).lists() == old(thread).lists(),
        keeps(old(thread)@, final(thread)@, ply as int),
        in_range(r@),
        ply <= MAX_PLY && node.pv() && !final(thread)@.stop ==> playable(
            rules,
            old(pos)@,
            final(thread)@.stack[ply as int].pv,
        ),
        node is Root && ply < MAX_PLY && game_over(
            rules,
            old(pos)@,
            node,
            ply as int,
        ) is None && has_moves(
            rules,
            old(pos)@.board(),
        ) && depth > 0 ==> has_line(rules, old(pos)@.board(), final(thread)@, ply as int),
        ({
            let o = searched::<R, B>(
                rules,
                old(pos)@,
                World { t: old(thread)@, s: old(shared).state() },
                node,
                alpha@,
                beta@,
                depth as int,
                ply as int,
            );
            r@ == o.score && final(thread)@ == o.w.t && final(shared).state() == o.w.s
        }),
    decreases reach(depth as int), 7nat,
{
    proof {
        reveal(searched);
        reveal(node_searched);
    }
    if !node.is_root() && check_stop(thread, shared) {
        return halt(thread, shared);
    }
    if ply > MAX_PLY {
        let board = pos.board();
        return adjust_eval(shared.eval(board), shared.corr(board));
    }
    enter(thread, node, ply);
    if depth <= 0 {
        return qsearch(pos, thread, rules, shared, node, alpha, beta, ply);
    }
    if !node.is_root() {
        shared.count_node();
    }
    if let Some(score) = check_game_over(pos, rules, node, ply) {
        return score;
    }
    let (settled, tt_move) = consult(
        pos,
        thread,
        rules,
        shared,
        node,
        alpha,
        beta,
        depth,
        ply,
    );
    if let Some(score) = settled {
        return score;
    }
    let raw_eval = shared.eval(pos.board());
    let static_eval = adjust_eval(raw_eval, shared.corr(pos.board()));
    let improving = is_improving(thread, ply, static_eval);
    thread.set_evals(ply, raw_eval, static_eval);
    // Reverse futility pruning: even a pessimistic estimate fails high.
    if !node.is_pv() && depth <= B::rfp_depth() && static_eval.0 - B::rfp_margin(depth, improving)
        >= beta.0 {
        return static_eval;
    }
    search_node(
        pos,
        thread,
        rules,
        shared,
        node,
        alpha,
        beta,
        depth,
        ply,
        tt_move,
        raw_eval,
        static_eval,
        improving,
    )
}

} // verus!
