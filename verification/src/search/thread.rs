//! What one search thread keeps for itself.

use crate::common::moves::Move;
use crate::score::Score;
use crate::search::move_stack::{MoveStack, ScoredMove};
use crate::search::MAX_PLY;
use vstd::prelude::*;

verus! {

/// A line of best play.
#[derive(Debug, Clone, Default)]
pub struct PrincipalVariation {
    moves: Vec<Move>,
}

impl View for PrincipalVariation {
    type V = Seq<Move>;

    closed spec fn view(&self) -> Seq<Move> {
        self.moves@
    }
}

impl PrincipalVariation {
    pub fn new() -> (r: PrincipalVariation)
        ensures
            r@ == Seq::<Move>::empty(),
    {
        PrincipalVariation { moves: Vec::new() }
    }

    pub fn len(&self) -> (r: usize)
        ensures
            r == self@.len(),
    {
        self.moves.len()
    }

    pub fn get(&self, i: usize) -> (r: Move)
        requires
            i < self@.len(),
        ensures
            r == self@[i as int],
    {
        self.moves[i]
    }

    pub fn clear(&mut self)
        ensures
            final(self)@ == Seq::<Move>::empty(),
    {
        self.moves.clear();
    }

    pub fn push(&mut self, mv: Move)
        ensures
            final(self)@ == old(self)@.push(mv),
    {
        self.moves.push(mv);
    }

    pub fn extend(&mut self, other: &PrincipalVariation)
        ensures
            final(self)@ == old(self)@ + other@,
    {
        let mut i: usize = 0;
        while i < other.moves.len()
            invariant
                i <= other@.len(),
                self@ == old(self)@ + other@.take(i as int),
            decreases other.moves.len() - i,
        {
            self.moves.push(other.moves[i]);
            i += 1;
            assert(self@ =~= old(self)@ + other@.take(i as int));
        }
        assert(other@.take(i as int) =~= other@);
    }

    /// A copy of the line.
    pub fn copied(&self) -> (r: PrincipalVariation)
        ensures
            r@ == self@,
    {
        let mut r = PrincipalVariation::new();
        r.extend(self);
        assert(r@ =~= self@);
        r
    }
}

/// What the search keeps for one ply.
#[derive(Debug, Clone)]
pub struct SearchStack {
    pub(crate) pv: PrincipalVariation,
    pub(crate) raw_eval: Option<Score>,
    pub(crate) static_eval: Option<Score>,
    pub(crate) mv: Option<Move>,
}

/// A ply's line of best play, its evaluations and its best move.
#[verifier::ext_equal]
pub struct PlyModel {
    pub pv: Seq<Move>,
    pub raw_eval: Option<int>,
    pub static_eval: Option<int>,
    pub mv: Option<Move>,
}

pub open spec fn score_value(score: Option<Score>) -> Option<int> {
    match score {
        Some(s) => Some(s@),
        None => None,
    }
}

impl View for SearchStack {
    type V = PlyModel;

    closed spec fn view(&self) -> PlyModel {
        PlyModel {
            pv: self.pv@,
            raw_eval: score_value(self.raw_eval),
            static_eval: score_value(self.static_eval),
            mv: self.mv,
        }
    }
}

impl Default for SearchStack {
    fn default() -> (r: SearchStack)
        ensures
            r@ == empty_ply(),
    {
        SearchStack { pv: PrincipalVariation::new(), raw_eval: None, static_eval: None, mv: None }
    }
}

/// A ply that nothing is known of yet.
pub open spec fn empty_ply() -> PlyModel {
    PlyModel { pv: Seq::empty(), raw_eval: None, static_eval: None, mv: None }
}

/// The state of one search thread.
pub struct ThreadData {
    pub id: usize,
    pub stop: bool,
    pub sel_depth: usize,
    pub nmr_ply: Option<usize>,
    pub stack: Vec<SearchStack>,
    pub move_stack: MoveStack,
}

/// The state of a thread without its move lists.
#[verifier::ext_equal]
pub struct ThreadModel {
    pub id: usize,
    pub stop: bool,
    pub sel_depth: int,
    pub nmr_ply: Option<usize>,
    pub stack: Seq<PlyModel>,
}

impl View for ThreadData {
    type V = ThreadModel;

    open spec fn view(&self) -> ThreadModel {
        ThreadModel {
            id: self.id,
            stop: self.stop,
            sel_depth: self.sel_depth as int,
            nmr_ply: self.nmr_ply,
            stack: self.stack@.map_values(|s: SearchStack| s@),
        }
    }
}

impl ThreadModel {
    pub open spec fn stopped(self) -> ThreadModel {
        ThreadModel { stop: true, ..self }
    }

    pub open spec fn with_ply(self, ply: int, model: PlyModel) -> ThreadModel {
        ThreadModel { stack: self.stack.update(ply, model), ..self }
    }

    pub open spec fn with_pv(self, ply: int, pv: Seq<Move>) -> ThreadModel {
        self.with_ply(ply, PlyModel { pv, ..self.stack[ply] })
    }

    pub open spec fn with_mv(self, ply: int, mv: Option<Move>) -> ThreadModel {
        self.with_ply(ply, PlyModel { mv, ..self.stack[ply] })
    }

    pub open spec fn with_evals(self, ply: int, raw: int, corrected: int) -> ThreadModel {
        self.with_ply(
            ply,
            PlyModel { raw_eval: Some(raw), static_eval: Some(corrected), ..self.stack[ply] },
        )
    }

    pub open spec fn with_sel_depth(self, ply: int) -> ThreadModel {
        ThreadModel {
            sel_depth: if self.sel_depth < ply {
                ply
            } else {
                self.sel_depth
            },
            ..self
        }
    }

    pub open spec fn with_nmr_ply(self, nmr_ply: Option<usize>) -> ThreadModel {
        ThreadModel { nmr_ply, ..self }
    }

    /// The line of a ply becomes a move followed by the line of the next ply.
    pub open spec fn with_line(self, ply: int, mv: Move) -> ThreadModel {
        self.with_pv(ply, seq![mv] + self.stack[ply + 1].pv)
    }
}

impl ThreadData {
    /// The move lists of the plies being searched.
    pub open spec fn lists(&self) -> Seq<Seq<ScoredMove>> {
        self.move_stack@
    }

    /// There is a place for every ply, and no line starts at the last.
    pub open spec fn wf(&self) -> bool {
        &&& self.stack@.len() == MAX_PLY + 1
        &&& self.stack@[MAX_PLY as int]@.pv.len() == 0
        &&& self.move_stack.wf()
    }

    pub fn new(id: usize) -> (r: ThreadData)
        ensures
            r.wf(),
            r.lists().len() == 0,
            r@ == (ThreadModel {
                id,
                stop: false,
                sel_depth: 0,
                nmr_ply: None,
                stack: Seq::new((MAX_PLY + 1) as nat, |i: int| empty_ply()),
            }),
    {
        let mut stack: Vec<SearchStack> = Vec::new();
        while stack.len() < MAX_PLY + 1
            invariant
                stack@.len() <= MAX_PLY + 1,
                forall|i: int| 0 <= i < stack@.len() ==> (#[trigger] stack@[i])@ == empty_ply(),
            decreases MAX_PLY + 1 - stack@.len(),
        {
            stack.push(SearchStack::default());
        }
        let r = ThreadData {
            id,
            stop: false,
            sel_depth: 0,
            nmr_ply: None,
            stack,
            move_stack: MoveStack::default(),
        };
        assert(r@.stack =~= Seq::new((MAX_PLY + 1) as nat, |i: int| empty_ply()));
        r
    }

    /// Whether there is a place for every ply and no line starts at the last.
    pub fn ready(&self) -> (r: bool)
        ensures
            self.move_stack.wf() ==> r == self.wf(),
    {
        self.stack.len() == MAX_PLY + 1 && self.stack[MAX_PLY].pv.len() == 0
    }

    /// The line of best play from a ply.
    pub fn pv(&self, ply: usize) -> (r: &PrincipalVariation)
        requires
            self.wf(),
            ply <= MAX_PLY,
        ensures
            r@ == self@.stack[ply as int].pv,
    {
        &self.stack[ply].pv
    }

    /// The best move found at a ply.
    pub fn mv(&self, ply: usize) -> (r: Option<Move>)
        requires
            self.wf(),
            ply <= MAX_PLY,
        ensures
            r == self@.stack[ply as int].mv,
    {
        self.stack[ply].mv
    }

    /// The corrected evaluation of a ply.
    pub fn static_eval(&self, ply: usize) -> (r: Option<Score>)
        requires
            self.wf(),
            ply <= MAX_PLY,
        ensures
            score_value(r) == self@.stack[ply as int].static_eval,
    {
        self.stack[ply].static_eval
    }

    pub(crate) fn clear_pv(&mut self, ply: usize)
        requires
            old(self).wf(),
            ply <= MAX_PLY,
        ensures
            final(self).wf(),
            final(self).lists() == old(self).lists(),
            final(self)@ == old(self)@.with_pv(ply as int, Seq::empty()),
    {
        self.stack[ply].pv.clear();
        assert(self@.stack =~= old(self)@.with_pv(ply as int, Seq::empty()).stack);
    }

    /// Adds a move and a line to the line of a ply.
    pub(crate) fn extend_pv(&mut self, ply: usize, mv: Move, line: &PrincipalVariation)
        requires
            old(self).wf(),
            ply < MAX_PLY,
        ensures
            final(self).wf(),
            final(self).lists() == old(self).lists(),
            final(self)@ == old(self)@.with_pv(
                ply as int,
                old(self)@.stack[ply as int].pv.push(mv) + line@,
            ),
    {
        self.stack[ply].pv.push(mv);
        self.stack[ply].pv.extend(line);
        assert(self@.stack =~= old(self)@.with_pv(
            ply as int,
            old(self)@.stack[ply as int].pv.push(mv) + line@,
        ).stack);
    }

    pub(crate) fn set_mv(&mut self, ply: usize, mv: Option<Move>)
        requires
            old(self).wf(),
            ply <= MAX_PLY,
        ensures
            final(self).wf(),
            final(self).lists() == old(self).lists(),
            final(self)@ == old(self)@.with_mv(ply as int, mv),
    {
        self.stack[ply].mv = mv;
        assert(self@.stack =~= old(self)@.with_mv(ply as int, mv).stack);
    }

    pub(crate) fn set_evals(&mut self, ply: usize, raw: Score, corrected: Score)
        requires
            old(self).wf(),
            ply <= MAX_PLY,
        ensures
            final(self).wf(),
            final(self).lists() == old(self).lists(),
            final(self)@ == old(self)@.with_evals(ply as int, raw@, corrected@),
    {
        self.stack[ply].raw_eval = Some(raw);
        self.stack[ply].static_eval = Some(corrected);
        assert(self@.stack =~= old(self)@.with_evals(ply as int, raw@, corrected@).stack);
    }
}

} // verus!
