//! What a node remembers about the duck squares it has tried.

use crate::board::board::Board;
use crate::common::bitboard::Bitboard;
use crate::common::geometry::between;
use crate::common::moves::Move;
use crate::common::types::{square_numbers_are_exact, Square};
use crate::rules::{legal, Rules};
use crate::search::model::{bumped, not_stopping, route, safety_known, Safety};
use vstd::prelude::*;

verus! {

/// Counts of the tried duck squares, and what the replies to them showed.
pub struct DuckTables {
    ducks_by_move: Vec<u8>,
    duck_counts: Vec<u8>,
    duck_refutations: Vec<Bitboard>,
    duck_safety: Vec<Option<(Square, Bitboard)>>,
}

pub open spec fn safety_model(entry: Option<(Square, Bitboard)>) -> Option<Safety> {
    match entry {
        Some((src, squares)) => Some(Safety { src, squares: squares@ }),
        None => None,
    }
}

impl DuckTables {
    pub closed spec fn by_move(&self) -> Seq<u8> {
        self.ducks_by_move@
    }

    pub closed spec fn counts(&self) -> Seq<u8> {
        self.duck_counts@
    }

    pub closed spec fn refutations(&self) -> Seq<Set<Square>> {
        self.duck_refutations@.map_values(|b: Bitboard| b@)
    }

    pub closed spec fn safety(&self) -> Seq<Option<Safety>> {
        self.duck_safety@.map_values(|e: Option<(Square, Bitboard)>| safety_model(e))
    }

    pub open spec fn wf(&self) -> bool {
        self.by_move().len() == 4096 && self.counts().len() == 64 && self.safety().len() == 64
    }

    /// Tables of a node that has tried nothing, with room for `replies` refutations.
    pub fn new(replies: usize) -> (r: DuckTables)
        ensures
            r.wf(),
            r.by_move() == Seq::new(4096, |i: int| 0u8),
            r.counts() == Seq::new(64, |i: int| 0u8),
            r.refutations() == Seq::new(replies as nat, |i: int| Set::<Square>::empty()),
            r.safety() == Seq::new(64, |i: int| None::<Safety>),
    {
        let mut ducks_by_move: Vec<u8> = Vec::new();
        while ducks_by_move.len() < 4096
            invariant
                ducks_by_move@.len() <= 4096,
                forall|i: int| 0 <= i < ducks_by_move@.len() ==> ducks_by_move@[i] == 0,
            decreases 4096 - ducks_by_move@.len(),
        {
            ducks_by_move.push(0);
        }
        let mut duck_counts: Vec<u8> = Vec::new();
        while duck_counts.len() < 64
            invariant
                duck_counts@.len() <= 64,
                forall|i: int| 0 <= i < duck_counts@.len() ==> duck_counts@[i] == 0,
            decreases 64 - duck_counts@.len(),
        {
            duck_counts.push(0);
        }
        let mut duck_refutations: Vec<Bitboard> = Vec::new();
        while duck_refutations.len() < replies
            invariant
                duck_refutations@.len() <= replies,
                forall|i: int|
                    0 <= i < duck_refutations@.len() ==> (#[trigger] duck_refutations@[i])@
                        == Set::<Square>::empty(),
            decreases replies - duck_refutations@.len(),
        {
            duck_refutations.push(Bitboard::empty());
        }
        let mut duck_safety: Vec<Option<(Square, Bitboard)>> = Vec::new();
        while duck_safety.len() < 64
            invariant
                duck_safety@.len() <= 64,
                forall|i: int| 0 <= i < duck_safety@.len() ==> #[trigger] duck_safety@[i] is None,
            decreases 64 - duck_safety@.len(),
        {
            duck_safety.push(None);
        }
        let r = DuckTables { ducks_by_move, duck_counts, duck_refutations, duck_safety };
        assert(r.by_move() =~= Seq::new(4096, |i: int| 0u8));
        assert(r.counts() =~= Seq::new(64, |i: int| 0u8));
        assert(r.refutations() =~= Seq::new(replies as nat, |i: int| Set::<Square>::empty()));
        assert(r.safety() =~= Seq::new(64, |i: int| None::<Safety>));
        r
    }

    /// Whether a reply found before refutes a move that puts the duck on `duck`.
    pub fn refutes(&self, at: usize, duck: Square) -> (r: bool)
        requires
            at < self.refutations().len(),
        ensures
            r == self.refutations()[at as int].contains(duck),
    {
        self.duck_refutations[at].has(duck)
    }

    /// How often a piece move has been tried.
    pub fn tried(&self, mv: Move) -> (r: u8)
        requires
            self.wf(),
        ensures
            r == self.by_move()[route(mv)],
            0 <= route(mv) < 4096,
    {
        proof {
            square_numbers_are_exact(mv.src, 0);
            square_numbers_are_exact(mv.dest, 0);
        }
        self.ducks_by_move[mv.src().index() * 64 + mv.dest().index()]
    }

    /// How often a duck square has been tried.
    pub fn crowd(&self, mv: Move) -> (r: u8)
        requires
            self.wf(),
        ensures
            r == self.counts()[mv.duck.number()],
    {
        proof {
            square_numbers_are_exact(mv.duck, 0);
        }
        self.duck_counts[mv.duck().index()]
    }

    /// The duck squares that save the king after a move.
    pub fn find_safe<R: Rules>(&mut self, rules: &R, board: &Board, mv: Move) -> (r: Bitboard)
        requires
            old(self).wf(),
            legal(rules, board@, mv),
            board@.king_square(board@.stm) is Some,
        ensures
            final(self).wf(),
            final(self).by_move() == old(self).by_move(),
            final(self).counts() == old(self).counts(),
            final(self).refutations() == old(self).refutations(),
            final(self).safety() == safety_known(rules, board@, old(self).safety(), mv),
            final(self).safety()[mv.dest.number()] is Some,
            r@ == final(self).safety()[mv.dest.number()]->0.squares,
    {
        proof {
            square_numbers_are_exact(mv.dest, 0);
        }
        let at = mv.dest().index();
        if let Some((src, squares)) = self.duck_safety[at] {
            if src == mv.src() {
                return squares;
            }
        }
        let after = rules.play(board, mv);
        let squares = after.king_capture_blocks(after.stm().flip());
        self.duck_safety[at] = Some((mv.src(), squares));
        assert(self.safety() =~= safety_known(rules, board@, old(self).safety(), mv));
        squares
    }

    /// Counts a move that is about to be searched.
    pub fn count(&mut self, mv: Move)
        requires
            old(self).wf(),
        ensures
            final(self).wf(),
            final(self).by_move() == bumped(old(self).by_move(), route(mv)),
            final(self).counts() == bumped(old(self).counts(), mv.duck.number()),
            final(self).refutations() == old(self).refutations(),
            final(self).safety() == old(self).safety(),
    {
        proof {
            square_numbers_are_exact(mv.src, 0);
            square_numbers_are_exact(mv.dest, 0);
            square_numbers_are_exact(mv.duck, 0);
        }
        let at = mv.src().index() * 64 + mv.dest().index();
        let tried = self.ducks_by_move[at];
        self.ducks_by_move[at] = tried.wrapping_add(1);
        let duck = mv.duck().index();
        let crowd = self.duck_counts[duck];
        self.duck_counts[duck] = crowd.wrapping_add(1);
    }

    /// Learns the opponent's best reply to a move.
    pub fn learn(&mut self, at: usize, reply: Option<Move>)
        requires
            old(self).wf(),
            at < old(self).refutations().len(),
        ensures
            final(self).wf(),
            final(self).by_move() == old(self).by_move(),
            final(self).counts() == old(self).counts(),
            final(self).safety() == old(self).safety(),
            final(self).refutations() == (match reply {
                Some(r) => old(self).refutations().update(
                    at as int,
                    old(self).refutations()[at as int].union(not_stopping(r)),
                ),
                None => old(self).refutations(),
            }),
    {
        if let Some(r) = reply {
            let way = between(r.src(), r.dest()).union(Bitboard::single(r.dest())).union(
                Bitboard::single(r.duck()),
            );
            let refuted = way.complement();
            assert(refuted@ =~= not_stopping(r));
            let known = self.duck_refutations[at];
            let more = known.union(refuted);
            self.duck_refutations[at] = more;
            assert(self.refutations() =~= old(self).refutations().update(
                at as int,
                old(self).refutations()[at as int].union(not_stopping(r)),
            ));
        }
    }
}

} // verus!
