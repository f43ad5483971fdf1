//! Scores, as seen by the side to move.

use crate::search::MAX_PLY;
use vstd::prelude::*;

verus! {

/// No score lies beyond this one or its negation.
pub const INFINITE: i32 = 32_767;

/// The score of capturing the king at once.
pub const MATE: i32 = 32_000;

/// Scores beyond this one, or beyond its negation, announce a forced win.
pub const MATE_BOUND: i32 = 31_000;

#[derive(Debug, Clone, Copy, PartialEq, Eq, Structural)]
pub struct Score(pub i32);

impl View for Score {
    type V = int;

    open spec fn view(&self) -> int {
        self.0 as int
    }
}

/// The score of losing the king `ply` plies from the root.
pub open spec fn mated_in(ply: int) -> int {
    ply - MATE
}

/// The score of winning `ply` plies from the root.
pub open spec fn mate_in(ply: int) -> int {
    MATE - ply
}

/// Whether a score announces a forced win or loss.
pub open spec fn announces_mate(score: int) -> bool {
    score > MATE_BOUND || score < -MATE_BOUND
}

/// `score`, brought back to where no forced win or loss is announced.
pub open spec fn without_mate(score: int) -> int {
    if score > MATE_BOUND {
        MATE_BOUND as int
    } else if score < -MATE_BOUND {
        -MATE_BOUND as int
    } else {
        score
    }
}

/// Whether a score lies between the infinities.
pub open spec fn in_range(score: int) -> bool {
    -INFINITE <= score <= INFINITE
}

impl Score {
    pub fn zero() -> (r: Score)
        ensures
            r@ == 0,
    {
        Score(0)
    }

    pub fn draw() -> (r: Score)
        ensures
            r@ == 0,
    {
        Score(0)
    }

    pub fn infinite() -> (r: Score)
        ensures
            r@ == INFINITE,
    {
        Score(INFINITE)
    }

    pub fn mated(ply: usize) -> (r: Score)
        requires
            ply <= MAX_PLY + 2,
        ensures
            r@ == mated_in(ply as int),
    {
        Score(ply as i32 - MATE)
    }

    pub fn mate(ply: usize) -> (r: Score)
        requires
            ply <= MAX_PLY + 2,
        ensures
            r@ == mate_in(ply as int),
    {
        Score(MATE - ply as i32)
    }

    pub fn is_mate(self) -> (r: bool)
        ensures
            r == announces_mate(self@),
    {
        self.0 > MATE_BOUND || self.0 < -MATE_BOUND
    }

    pub fn clamp_mate(self) -> (r: Score)
        ensures
            r@ == without_mate(self@),
    {
        if self.0 > MATE_BOUND {
            Score(MATE_BOUND)
        } else if self.0 < -MATE_BOUND {
            Score(-MATE_BOUND)
        } else {
            self
        }
    }

    /// The same score as seen by the other side.
    pub fn negated(self) -> (r: Score)
        requires
            in_range(self@),
        ensures
            r@ == -self@,
    {
        Score(-self.0)
    }
}

/// A win or a loss within the search's reach is recognized as one, a nearer win
/// is worth more and a nearer loss less, and what one side wins the other loses.
pub proof fn mates_are_ordered(near: int, far: int)
    requires
        0 <= near < far <= MAX_PLY + 2,
    ensures
        announces_mate(mate_in(near)) && announces_mate(mated_in(near)),
        announces_mate(mate_in(far)) && announces_mate(mated_in(far)),
        mate_in(far) < mate_in(near),
        mated_in(near) < mated_in(far),
        -mate_in(near) == mated_in(near),
{
}

/// A clamped score announces no forced win or loss, and clamping changes no
/// score that announces none.
pub proof fn clamped_scores_announce_no_mate(score: int)
    ensures
        !announces_mate(without_mate(score)),
        !announces_mate(score) ==> without_mate(score) == score,
{
}

} // verus!
