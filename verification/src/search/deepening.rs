//! Iterative deepening: search to depth one, then two, and so on.

use crate::board::board::BoardModel;
use crate::common::moves::Move;
use crate::position::{playable, Position, PositionModel};
use crate::rules::{has_moves, legal, Rules};
use crate::score::{in_range, Score, INFINITE};
use crate::search::backend::Backend;
use crate::search::minimax::{
    a_search_finds_the_value, best_line, ends_the_game, unmoved, unpruned, value,
    values_are_bounded,
};
use crate::search::model::{game_over, searched, NodeType, Outcome, World};
use crate::search::negamax::tame;
use crate::search::search::search;
use crate::search::thread::{score_value, PrincipalVariation, ThreadData, ThreadModel};
use crate::search::MAX_PLY;
use vstd::prelude::*;

verus! {

/// What a search reports while it runs and when it ends.
#[derive(Debug, Clone, Copy, PartialEq, Eq, Structural)]
pub enum SearchInfo {
    Silent,
    Result,
    Full,
}

impl SearchInfo {
    /// Whether a thread reports each completed depth. Only the main thread does.
    pub fn reports_depths(self, thread_id: usize) -> (r: bool)
        ensures
            r == (thread_id == 0 && self is Full),
    {
        thread_id == 0 && self == SearchInfo::Full
    }

    /// Whether a thread reports the result. Only the main thread does.
    pub fn reports_result(self, thread_id: usize) -> (r: bool)
        ensures
            r == (thread_id == 0 && !(self is Silent)),
    {
        thread_id == 0 && self != SearchInfo::Silent
    }
}

/// What a thread that deepens its search does next.
#[derive(Debug, Clone, Copy, PartialEq, Eq, Structural)]
pub enum Deepen {
    /// Search the next depth.
    Search,
    /// Report the completed depth.
    Report,
    /// Find out whether the completed depth is the last.
    Settle,
    /// Deepening has ended.
    Done,
}

impl Deepen {
    pub open spec fn followed_by(self, ended: bool, reports: bool) -> Deepen {
        match self {
            Deepen::Search => if ended {
                Deepen::Done
            } else if reports {
                Deepen::Report
            } else {
                Deepen::Settle
            },
            Deepen::Report => Deepen::Settle,
            Deepen::Settle => if ended {
                Deepen::Done
            } else {
                Deepen::Search
            },
            Deepen::Done => Deepen::Done,
        }
    }

    /// What comes after this. `ended` says whether a search was cut short, or a
    /// completed depth settled to be the last. A depth that is cut short ends
    /// deepening at once, without a report and without asking the clock; a
    /// completed one is reported before it is settled.
    pub fn next(self, ended: bool, reports: bool) -> (r: Deepen)
        ensures
            r == (match self {
                Deepen::Search => if ended {
                    Deepen::Done
                } else if reports {
                    Deepen::Report
                } else {
                    Deepen::Settle
                },
                Deepen::Report => Deepen::Settle,
                Deepen::Settle => if ended {
                    Deepen::Done
                } else {
                    Deepen::Search
                },
                Deepen::Done => Deepen::Done,
            }),
            r == self.followed_by(ended, reports),
    {
        match self {
            Deepen::Search => {
                if ended {
                    Deepen::Done
                } else if reports {
                    Deepen::Report
                } else {
                    Deepen::Settle
                }
            },
            Deepen::Report => Deepen::Settle,
            Deepen::Settle => {
                if ended {
                    Deepen::Done
                } else {
                    Deepen::Search
                }
            },
            Deepen::Done => Deepen::Done,
        }
    }
}

/// A depth is reported exactly if it was completed and reports are wanted, and before
/// it is settled; it is settled exactly if it was completed. Deepening ends exactly if
/// a search was cut short or a completed depth settled to be the last, and then for
/// good. Only after a depth was settled not to be the last is another one searched.
pub proof fn completed_depths_are_reported_and_settled(
    now: Deepen,
    ended: bool,
    reports: bool,
    later: bool,
)
    ensures
        now.followed_by(ended, reports) is Report <==> now is Search && !ended && reports,
        now.followed_by(ended, reports) is Settle <==> now is Report || now is Search && !ended
            && !reports,
        now.followed_by(ended, reports) is Search <==> now is Settle && !ended,
        now.followed_by(ended, reports) is Done <==> now is Done || ended && (now is Search || now
            is Settle),
        now is Search && !ended && reports ==> now.followed_by(ended, reports).followed_by(
            later,
            reports,
        ) is Settle,
{
}

/// How far deepening has come, and what the deepest completed search found.
pub struct Deepening {
    depth: i32,
    completed_depth: i32,
    score: Option<Score>,
    pv: PrincipalVariation,
}

pub struct DeepeningModel {
    pub depth: int,
    pub completed_depth: int,
    pub score: Option<int>,
    pub pv: Seq<Move>,
}

impl View for Deepening {
    type V = DeepeningModel;

    closed spec fn view(&self) -> DeepeningModel {
        DeepeningModel {
            depth: self.depth as int,
            completed_depth: self.completed_depth as int,
            score: score_value(self.score),
            pv: self.pv@,
        }
    }
}

/// The root search to a depth, with the whole window. It starts without a null
/// move search and without a deepest ply.
pub open spec fn root_searched<R: Rules, B: Backend>(
    rules: &R,
    p: PositionModel,
    w: World<B::State>,
    depth: int,
) -> Outcome<B::State> {
    searched::<R, B>(
        rules,
        p,
        World { t: ThreadModel { sel_depth: 0, nmr_ply: None, ..w.t }, s: w.s },
        NodeType::Root,
        -INFINITE as int,
        INFINITE as int,
        depth,
        0,
    )
}

/// Without pruning and without table entries, a root search that is not stopped
/// finds the value of the game to its depth, and a line that reaches it. The line
/// has as many moves as the depth, unless it ends the game before.
pub proof fn a_root_search_finds_the_value_to_its_depth<R: Rules, B: Backend>(
    rules: &R,
    calm: spec_fn(B::State) -> bool,
    e: spec_fn(BoardModel) -> int,
    p: PositionModel,
    w: World<B::State>,
    depth: int,
)
    requires
        1 <= depth <= MAX_PLY,
        w.t.stack.len() == MAX_PLY + 1,
        w.t.stack[MAX_PLY as int].pv.len() == 0,
        calm(w.s),
        unmoved::<B>(calm, e),
        tame(e),
        unpruned::<R, B>(rules),
    ensures
        ({
            let o = root_searched::<R, B>(rules, p, w, depth);
            let line = o.w.t.stack[0].pv;
            o.w.t.stop || {
                &&& o.score == value(rules, e, p, true, depth, 0)
                &&& best_line(rules, e, p, true, depth, 0, line)
                &&& line.len() >= depth || ends_the_game(rules, p, true, line)
            }
        }),
{
    let w1 = World { t: ThreadModel { sel_depth: 0, nmr_ply: None, ..w.t }, s: w.s };
    a_search_finds_the_value::<R, B>(
        rules,
        calm,
        e,
        p,
        w1,
        NodeType::Root,
        -INFINITE as int,
        INFINITE as int,
        depth,
        0,
    );
    values_are_bounded(rules, e, p, true, depth, 0);
}

/// What an iteration makes of a root search: whether it was cut short, and how far
/// deepening has come then.
pub open spec fn deepened<S>(d: DeepeningModel, o: Outcome<S>) -> (bool, DeepeningModel) {
    if d.depth > 1 && o.w.t.stop {
        (true, d)
    } else {
        (
            false,
            DeepeningModel {
                depth: d.depth + 1,
                completed_depth: d.completed_depth + 1,
                score: Some(o.score),
                pv: o.w.t.stack[0].pv,
            },
        )
    }
}

/// A stopped search counts only at depth one. One that counts is one more completed
/// depth, and its score and line are the ones that deepening has found; one that does
/// not changes nothing. So the next depth stays one ahead of the completed ones.
pub proof fn a_depth_counts_unless_it_is_cut_short<S>(d: DeepeningModel, o: Outcome<S>)
    ensures
        ({
            let (cut, after) = deepened(d, o);
            &&& cut <==> o.w.t.stop && d.depth > 1
            &&& cut ==> after == d
            &&& !cut ==> after.completed_depth == d.completed_depth + 1 && after.score == Some(
                o.score,
            ) && after.pv == o.w.t.stack[0].pv
            &&& after.depth - after.completed_depth == d.depth - d.completed_depth
        }),
{
}

/// What settling a completed depth comes to: whether deepening ends, the thread and
/// the surroundings.
pub open spec fn settled<B: Backend>(
    t: ThreadModel,
    s: B::State,
    completed_depth: int,
    depth: int,
) -> (bool, ThreadModel, B::State) {
    if t.id != 0 {
        (false, t, s)
    } else if B::enough(s, completed_depth) {
        (true, t.stopped(), B::after_set_stop(B::after_enough(s, completed_depth), true))
    } else {
        (false, t, B::after_deepen(B::after_enough(s, completed_depth), depth))
    }
}

/// Only the main thread ends deepening, and exactly if what is completed is enough.
/// Then it stops, and stops every thread. Else it announces the next depth. The other
/// threads ask nothing, tell nothing and go on.
pub proof fn the_main_thread_ends_deepening<B: Backend>(
    t: ThreadModel,
    s: B::State,
    completed_depth: int,
    depth: int,
)
    ensures
        ({
            let (ends, after, surroundings) = settled::<B>(t, s, completed_depth, depth);
            let heard = B::after_enough(s, completed_depth);
            &&& ends <==> t.id == 0 && B::enough(s, completed_depth)
            &&& after == (ThreadModel { stop: t.stop || ends, ..t })
            &&& t.id != 0 ==> surroundings == s
            &&& ends ==> surroundings == B::after_set_stop(heard, true)
            &&& t.id == 0 && !ends ==> surroundings == B::after_deepen(heard, depth)
        }),
{
}

impl Deepening {
    /// Nothing is searched yet; depth one is next.
    pub fn new() -> (r: Deepening)
        ensures
            r@ == (DeepeningModel {
                depth: 1,
                completed_depth: 0,
                score: None,
                pv: Seq::empty(),
            }),
    {
        Deepening {
            depth: 1,
            completed_depth: 0,
            score: None,
            pv: PrincipalVariation::new(),
        }
    }

    /// The depth that is searched next.
    pub fn depth(&self) -> (r: i32)
        ensures
            r == self@.depth,
    {
        self.depth
    }

    pub fn completed_depth(&self) -> (r: i32)
        ensures
            r == self@.completed_depth,
    {
        self.completed_depth
    }

    /// The score of the deepest completed search.
    pub fn score(&self) -> (r: Option<Score>)
        ensures
            score_value(r) == self@.score,
    {
        self.score
    }

    /// The line of best play that the deepest completed search found.
    pub fn pv(&self) -> (r: &PrincipalVariation)
        ensures
            r@ == self@.pv,
    {
        &self.pv
    }

    /// Searches the next depth. A search that was stopped counts only at depth
    /// one. Whether it was cut short.
    pub fn iterate<R: Rules, B: Backend>(
        &mut self,
        pos: &mut Position,
        thread: &mut ThreadData,
        rules: &R,
        shared: &mut B,
    ) -> (r: bool)
        requires
            old(pos).wf(),
            old(thread).wf(),
            old(thread).lists().len() == 0,
            1 <= old(self)@.depth < i32::MAX,
            old(self)@.completed_depth < old(self)@.depth,
        ensures
            final(pos).wf(),
            final(pos)@ == old(pos)@,
            final(thread).wf(),
            final(thread).lists() == old(thread).lists(),
            ({
                let o = root_searched::<R, B>(
                    rules,
                    old(pos)@,
                    World { t: old(thread)@, s: old(shared).state() },
                    old(self)@.depth,
                );
                &&& final(thread)@ == o.w.t
                &&& final(shared).state() == B::after_flush(o.w.s)
                &&& r == (old(self)@.depth > 1 && o.w.t.stop)
                &&& final(self)@ == if r {
                    old(self)@
                } else {
                    DeepeningModel {
                        depth: old(self)@.depth + 1,
                        completed_depth: old(self)@.completed_depth + 1,
                        score: Some(o.score),
                        pv: o.w.t.stack[0].pv,
                    }
                }
            }),
            (r, final(self)@) == deepened(
                old(self)@,
                root_searched::<R, B>(
                    rules,
                    old(pos)@,
                    World { t: old(thread)@, s: old(shared).state() },
                    old(self)@.depth,
                ),
            ),
            !r ==> in_range(final(self)@.score->0),
            // Unless the search was stopped, the whole line can be played.
            !r && !final(thread)@.stop ==> playable(rules, old(pos)@, final(self)@.pv),
            // Where there is a move to play, the line starts with one.
            !r && game_over(rules, old(pos)@, NodeType::Root, 0) is None && has_moves(
                rules,
                old(pos)@.board(),
            ) ==> final(self)@.pv.len() > 0 && legal(
                rules,
                old(pos)@.board(),
                final(self)@.pv[0],
            ),
            // The depth that is counted as completed is the one that was searched.
            old(self)@.depth == old(self)@.completed_depth + 1 ==> final(self)@.depth
                == final(self)@.completed_depth + 1,
            !r && old(self)@.depth == old(self)@.completed_depth + 1 ==> {
                let o = searched::<R, B>(
                    rules,
                    old(pos)@,
                    World {
                        t: ThreadModel { sel_depth: 0, nmr_ply: None, ..old(thread)@ },
                        s: old(shared).state(),
                    },
                    NodeType::Root,
                    -INFINITE as int,
                    INFINITE as int,
                    final(self)@.completed_depth,
                    0,
                );
                final(self)@.score == Some(o.score) && final(self)@.pv == o.w.t.stack[0].pv
            },
            // Without pruning and without table entries, the score is the value to
            // that depth, and the line reaches it.
            !r && !final(thread)@.stop && old(self)@.depth == old(self)@.completed_depth + 1
                && old(self)@.depth <= MAX_PLY && unpruned::<R, B>(rules) ==> forall|
                calm: spec_fn(B::State) -> bool,
                e: spec_fn(BoardModel) -> int,
            |
                calm(old(shared).state()) && #[trigger] unmoved::<B>(calm, e) && tame(e) ==> {
                    let depth = final(self)@.completed_depth;
                    let line = final(self)@.pv;
                    &&& final(self)@.score == Some(value(rules, e, old(pos)@, true, depth, 0))
                    &&& best_line(rules, e, old(pos)@, true, depth, 0, line)
                    &&& line.len() >= depth || ends_the_game(rules, old(pos)@, true, line)
                },
    {
        proof {
            if self@.depth <= MAX_PLY && unpruned::<R, B>(rules) {
                let w = World { t: thread@, s: shared.state() };
                assert forall|calm: spec_fn(B::State) -> bool, e: spec_fn(BoardModel) -> int|
                    calm(w.s) && #[trigger] unmoved::<B>(calm, e) && tame(e) implies {
                    let o = root_searched::<R, B>(rules, pos@, w, self@.depth);
                    let line = o.w.t.stack[0].pv;
                    o.w.t.stop || {
                        &&& o.score == value(rules, e, pos@, true, self@.depth, 0)
                        &&& best_line(rules, e, pos@, true, self@.depth, 0, line)
                        &&& line.len() >= self@.depth || ends_the_game(rules, pos@, true, line)
                    }
                } by {
                    a_root_search_finds_the_value_to_its_depth::<R, B>(
                        rules,
                        calm,
                        e,
                        pos@,
                        w,
                        self@.depth,
                    );
                }
            }
        }
        thread.sel_depth = 0;
        thread.nmr_ply = None;
        let alpha = Score::infinite().negated();
        let beta = Score::infinite();
        let score = search(
            pos,
            thread,
            rules,
            shared,
            NodeType::Root,
            alpha,
            beta,
            self.depth,
            0,
        );
        shared.flush_nodes();
        if self.depth > 1 && thread.stop {
            return true;
        }
        self.score = Some(score);
        self.pv = thread.pv(0).copied();
        self.depth = self.depth + 1;
        self.completed_depth = self.completed_depth + 1;
        false
    }

    /// Whether deepening ends after the completed depth. The main thread decides,
    /// and its decision stops every thread; the others go on until then.
    pub fn settle<B: Backend>(&self, thread: &mut ThreadData, shared: &mut B) -> (r: bool)
        ensures
            old(thread).wf() ==> final(thread).wf(),
            final(thread).lists() == old(thread).lists(),
            ({
                let s = old(shared).state();
                let enough = B::enough(s, self@.completed_depth);
                let asked = B::after_enough(s, self@.completed_depth);
                if old(thread)@.id != 0 {
                    !r && final(thread)@ == old(thread)@ && final(shared).state() == s
                } else if enough {
                    r && final(thread)@ == old(thread)@.stopped() && final(shared).state()
                        == B::after_set_stop(asked, true)
                } else {
                    !r && final(thread)@ == old(thread)@ && final(shared).state()
                        == B::after_deepen(asked, self@.depth)
                }
            }),
            (r, final(thread)@, final(shared).state()) == settled::<B>(
                old(thread)@,
                old(shared).state(),
                self@.completed_depth,
                self@.depth,
            ),
    {
        if thread.id == 0 {
            if shared.stop_id(self.completed_depth) {
                shared.set_stop(true);
                thread.stop = true;
                return true;
            }
            shared.deepen(self.depth);
        }
        false
    }
}

} // verus!
