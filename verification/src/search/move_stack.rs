//! The moves under consideration at each ply of the search, kept in one list.

use crate::board::board::Board;
use crate::common::moves::Move;
use crate::rules::{MoveFilter, Rules};
use crate::search::MAX_PLY;
use vstd::prelude::*;

verus! {

/// A move and the score by which it is ordered.
#[derive(Debug, Clone, Copy, PartialEq, Eq, Structural)]
pub struct ScoredMove(pub Move, pub i32);

/// The number of plies whose start is recorded.
pub const STARTS: usize = MAX_PLY + 1;

/// A stack of move lists, one for each ply being searched. Only the list on top
/// grows, and it goes when its ply does.
pub struct MoveStack {
    stack: Vec<ScoredMove>,
    start: [usize; STARTS],
    ply: usize,
}

/// The moves, not scored yet.
pub open spec fn unscored(moves: Seq<Move>) -> Seq<ScoredMove> {
    moves.map_values(|mv: Move| ScoredMove(mv, 0))
}

impl View for MoveStack {
    type V = Seq<Seq<ScoredMove>>;

    /// The lists, that of the current ply last.
    closed spec fn view(&self) -> Seq<Seq<ScoredMove>> {
        Seq::new(
            self.ply as nat,
            |i: int| self.stack@.subrange(self.start@[i] as int, self.start@[i + 1] as int),
        )
    }
}

impl MoveStack {
    /// The lists follow one another without a gap and fill the stack.
    pub closed spec fn wf(&self) -> bool {
        &&& self.ply <= MAX_PLY
        &&& self.start@[0] == 0
        &&& self.start@[self.ply as int] == self.stack@.len()
        &&& forall|i: int, j: int|
            0 <= i <= j <= self.ply ==> self.start@[i] <= self.start@[j]
    }

    /// Opens a ply with an empty list.
    pub fn push_ply(&mut self)
        requires
            old(self).wf(),
            old(self)@.len() < MAX_PLY,
        ensures
            final(self).wf(),
            final(self)@ == old(self)@.push(Seq::empty()),
    {
        let from = self.start[self.ply];
        self.start[self.ply + 1] = from;
        self.ply += 1;
        proof {
            assert(self@ =~= old(self)@.push(Seq::empty())) by {
                assert forall|i: int| 0 <= i < self.ply implies #[trigger] self@[i]
                    =~= old(self)@.push(Seq::empty())[i] by {}
            }
        }
    }

    /// Adds the legal moves of a kind to the current list, and says how many
    /// moves it had before.
    pub fn add_moves<R: Rules>(&mut self, board: &Board, rules: &R, filter: MoveFilter) -> (r:
        usize)
        requires
            old(self).wf(),
            old(self)@.len() > 0,
        ensures
            final(self).wf(),
            final(self)@ == old(self)@.update(
                old(self)@.len() - 1,
                old(self)@.last() + unscored(rules.moves(board@, filter)),
            ),
            r == old(self)@.last().len(),
            forall|i: int|
                0 <= i < rules.moves(board@, filter).len() && (#[trigger] rules.moves(
                    board@,
                    filter,
                )[i]).flag.takes() ==> board@.mailbox[rules.moves(board@, filter)[i].dest] is Some,
    {
        let start = self.start[self.ply - 1];
        let old_len = self.stack.len();
        let moves = rules.gen_moves(board, filter);
        let mut i: usize = 0;
        while i < moves.len()
            invariant
                i <= moves@.len(),
                self.start == old(self).start,
                self.ply == old(self).ply,
                self.stack@ == old(self).stack@ + unscored(moves@.take(i as int)),
            decreases moves.len() - i,
        {
            self.stack.push(ScoredMove(moves[i], 0));
            i += 1;
            proof {
                assert(self.stack@ =~= old(self).stack@ + unscored(moves@.take(i as int)));
            }
        }
        self.start[self.ply] = self.stack.len();
        proof {
            assert(moves@.take(i as int) =~= moves@);
            let added = unscored(rules.moves(board@, filter));
            assert forall|k: int| 0 <= k < self.ply implies #[trigger] self@[k] =~= old(
                self,
            )@.update(old(self)@.len() - 1, old(self)@.last() + added)[k] by {
                assert(self.start@[k] <= self.start@[k + 1]);
                assert(old(self).start@[k] <= old(self).start@[k + 1]);
                assert(old(self).start@[k + 1] <= old(self).start@[self.ply as int]);
            }
            assert(self@ =~= old(self)@.update(old(self)@.len() - 1, old(self)@.last() + added));
        }
        old_len - start
    }

    /// Closes the current ply; its list goes with it.
    pub fn pop_ply(&mut self)
        requires
            old(self).wf(),
            old(self)@.len() > 0,
        ensures
            final(self).wf(),
            final(self)@ == old(self)@.drop_last(),
    {
        self.ply -= 1;
        let from = self.start[self.ply];
        self.stack.truncate(from);
        proof {
            assert(old(self).start@[self.ply as int] <= old(self).start@[self.ply + 1]);
            assert forall|k: int| 0 <= k < self.ply implies #[trigger] self@[k] =~= old(
                self,
            )@.drop_last()[k] by {
                assert(self.start@[k] <= self.start@[k + 1]);
                assert(self.start@[k + 1] <= self.start@[self.ply as int]);
            }
            assert(self@ =~= old(self)@.drop_last());
        }
    }

    /// The current list.
    pub fn get(&self) -> (r: &[ScoredMove])
        requires
            self.wf(),
            self@.len() > 0,
        ensures
            r@ == self@.last(),
    {
        let from = self.start[self.ply - 1];
        assert(self.start@[self.ply - 1] <= self.start@[self.ply as int]);
        self.stack.as_slice().split_at(from).1
    }

    /// The current list, to be rescored and reordered in place.
    pub fn get_mut(&mut self) -> (r: &mut [ScoredMove])
        requires
            old(self).wf(),
            old(self)@.len() > 0,
        ensures
            r@ == old(self)@.last(),
            final(r)@.len() == r@.len() ==> final(self).wf() && final(self)@ == old(self)@.update(
                old(self)@.len() - 1,
                final(r)@,
            ),
    {
        let from = self.start[self.ply - 1];
        assert(self.start@[self.ply - 1] <= self.start@[self.ply as int]);
        let ghost before = *self;
        let (head, tail) = self.stack.as_mut_slice().split_at_mut(from);
        proof {
            let kept = head@;
            let len = tail@.len();
            assert(has_resolved(head));
            assert forall|after: MoveStack, list: Seq<ScoredMove>|
                #![trigger after.view(), kept + list]
                after.start == before.start && after.ply == before.ply && after.stack@ == kept
                    + list && list.len() == len implies after.wf() && after@ == before@.update(
                before@.len() - 1,
                list,
            ) by {
                lemma_replace_last(before, after, list);
            }
        }
        tail
    }

    /// Closes every ply.
    pub fn reset(&mut self)
        requires
            old(self).wf(),
        ensures
            final(self).wf(),
            final(self)@ == Seq::<Seq<ScoredMove>>::empty(),
    {
        self.stack.clear();
        self.ply = 0;
        assert(self@ =~= Seq::<Seq<ScoredMove>>::empty());
    }
}

impl Default for MoveStack {
    fn default() -> (r: MoveStack)
        ensures
            r.wf(),
            r@ == Seq::<Seq<ScoredMove>>::empty(),
    {
        let r = MoveStack { stack: Vec::new(), start: [0;STARTS], ply: 0 };
        assert(r@ =~= Seq::<Seq<ScoredMove>>::empty());
        r
    }
}

/// Opening a ply, filling its list in any way and closing it leaves the lists of
/// the other plies as they were.
pub proof fn closing_a_ply_undoes_opening_it(lists: Seq<Seq<ScoredMove>>, list: Seq<ScoredMove>)
    ensures
        lists.push(Seq::empty()).update(lists.len() as int, list).drop_last() == lists,
{
    assert(lists.push(Seq::empty()).update(lists.len() as int, list).drop_last() =~= lists);
}

/// Replacing the last list by one of the same length replaces nothing else.
proof fn lemma_replace_last(before: MoveStack, after: MoveStack, list: Seq<ScoredMove>)
    requires
        before.wf(),
        before.ply > 0,
        after.start == before.start,
        after.ply == before.ply,
        after.stack@ == before.stack@.take(before.start@[before.ply - 1] as int) + list,
        list.len() == before.stack@.len() - before.start@[before.ply - 1],
    ensures
        after.wf(),
        after@ == before@.update(before@.len() - 1, list),
{
    assert forall|k: int| 0 <= k < after.ply implies #[trigger] after@[k] =~= before@.update(
        before@.len() - 1,
        list,
    )[k] by {
        assert(before.start@[k] <= before.start@[k + 1]);
        assert(k + 1 < before.ply ==> before.start@[k + 1] <= before.start@[before.ply - 1]);
    }
    assert(after@ =~= before@.update(before@.len() - 1, list));
}

} // verus!
