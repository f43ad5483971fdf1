//! Scoring moves and putting the best first.

use crate::board::board::{Board, BoardModel};
use crate::common::bitboard::Bitboard;
use crate::common::moves::Move;
use crate::common::types::{square_numbers_are_exact, Piece, Square};
use crate::position::{Position, PositionModel};
use crate::rules::MoveFilter;
use crate::search::backend::{large, Backend};
use crate::search::move_stack::ScoredMove;
use vstd::prelude::*;

verus! {

/// `list` with `x` put behind every move that scores at least as much, given
/// that the best come first in `list`.
pub open spec fn placed(list: Seq<ScoredMove>, x: ScoredMove) -> Seq<ScoredMove>
    decreases list.len(),
{
    if list.len() == 0 || list.last().1 >= x.1 {
        list.push(x)
    } else {
        placed(list.drop_last(), x).push(list.last())
    }
}

/// The moves of `list` with the best first; moves that score the same keep
/// their order.
pub open spec fn ranked(list: Seq<ScoredMove>) -> Seq<ScoredMove>
    decreases list.len(),
{
    if list.len() == 0 {
        list
    } else {
        placed(ranked(list.drop_last()), list.last())
    }
}

/// Whether no move scores more than one before it.
pub open spec fn best_first(list: Seq<ScoredMove>) -> bool {
    forall|i: int, j: int| 0 <= i <= j < list.len() ==> list[i].1 >= list[j].1
}

proof fn lemma_placed(list: Seq<ScoredMove>, x: ScoredMove)
    ensures
        placed(list, x).len() == list.len() + 1,
        placed(list, x).to_multiset() == list.to_multiset().insert(x),
        best_first(list) ==> best_first(placed(list, x)),
        forall|i: int| 0 <= i < placed(list, x).len() ==> (#[trigger] placed(list, x)[i] == x
            || list.contains(placed(list, x)[i])),
    decreases list.len(),
{
    broadcast use vstd::seq_lib::group_to_multiset_ensures;

    if list.len() == 0 || list.last().1 >= x.1 {
        assert forall|i: int| 0 <= i < placed(list, x).len() implies (#[trigger] placed(list, x)[i]
            == x || list.contains(placed(list, x)[i])) by {
            if i < list.len() {
                assert(list.contains(list[i]));
            }
        }
    } else {
        let shorter = list.drop_last();
        lemma_placed(shorter, x);
        assert(shorter.push(list.last()) =~= list);
        assert(placed(list, x).to_multiset() =~= list.to_multiset().insert(x));
        assert forall|i: int| 0 <= i < placed(list, x).len() implies (#[trigger] placed(list, x)[i]
            == x || list.contains(placed(list, x)[i])) by {
            if i < placed(shorter, x).len() {
                assert(placed(list, x)[i] == placed(shorter, x)[i]);
                if placed(shorter, x)[i] != x {
                    let k = choose|k: int| 0 <= k < shorter.len() && shorter[k] == placed(
                        shorter,
                        x,
                    )[i];
                    assert(list[k] == shorter[k]);
                }
            } else {
                assert(list.contains(list.last()));
            }
        }
        if best_first(list) {
            assert(best_first(shorter));
            assert forall|i: int| 0 <= i < placed(shorter, x).len() implies #[trigger] placed(
                shorter,
                x,
            )[i].1 >= list.last().1 by {
                if placed(shorter, x)[i] != x {
                    let k = choose|k: int| 0 <= k < shorter.len() && shorter[k] == placed(
                        shorter,
                        x,
                    )[i];
                    assert(list[k] == shorter[k]);
                }
            }
        }
    }
}

/// Ranking loses no move, adds none, and puts the best first.
pub proof fn ranking_keeps_every_move(list: Seq<ScoredMove>)
    ensures
        ranked(list).len() == list.len(),
        ranked(list).to_multiset() == list.to_multiset(),
        best_first(ranked(list)),
    decreases list.len(),
{
    broadcast use vstd::seq_lib::group_to_multiset_ensures;

    if list.len() > 0 {
        let shorter = list.drop_last();
        ranking_keeps_every_move(shorter);
        lemma_placed(ranked(shorter), list.last());
        assert(shorter.push(list.last()) =~= list);
        assert(ranked(list).to_multiset() =~= list.to_multiset());
    }
}

/// A ranked list holds the moves of the list it came from.
pub proof fn ranking_moves_only(list: Seq<ScoredMove>, x: ScoredMove)
    ensures
        ranked(list).contains(x) <==> list.contains(x),
{
    broadcast use vstd::seq_lib::group_to_multiset_ensures;

    ranking_keeps_every_move(list);
    assert(ranked(list).contains(x) <==> ranked(list).to_multiset().count(x) > 0);
    assert(list.contains(x) <==> list.to_multiset().count(x) > 0);
}

/// Puts the moves from `start` on in order, the best first.
pub fn rank_from(moves: &mut [ScoredMove], start: usize)
    requires
        start <= old(moves)@.len(),
    ensures
        final(moves)@ == old(moves)@.take(start as int) + ranked(old(moves)@.skip(start as int)),
{
    let ghost all = old(moves)@;
    let ghost head = all.take(start as int);
    let len = moves.len();
    let mut i: usize = start;
    proof {
        assert(all.subrange(start as int, start as int) =~= Seq::empty());
        assert(moves@ =~= head + ranked(all.subrange(start as int, i as int)) + all.skip(i as int));
    }
    while i < len
        invariant
            start <= i <= len,
            len == all.len(),
            head == all.take(start as int),
            ranked(all.subrange(start as int, i as int)).len() == i - start,
            moves@ == head + ranked(all.subrange(start as int, i as int)) + all.skip(i as int),
        decreases len - i,
    {
        let x = moves[i];
        let ghost sorted = ranked(all.subrange(start as int, i as int));
        let ghost rest = all.skip(i + 1);
        let mut j: usize = i;
        proof {
            assert(x == all[i as int]);
            assert(sorted.take(j - start) =~= sorted);
            assert(sorted.skip(j - start) =~= Seq::empty());
            assert(placed(sorted, x) =~= placed(sorted.take(j - start), x) + sorted.skip(
                j - start,
            ));
            assert(moves@ =~= head + sorted.take(j - start) + seq![x] + sorted.skip(j - start)
                + rest);
        }
        while j > start && moves[j - 1].1 < x.1
            invariant
                start <= j <= i,
                i < len,
                len == all.len(),
                head.len() == start,
                sorted.len() == i - start,
                rest.len() == len - i - 1,
                moves@.len() == len,
                moves@.take(j as int) == head + sorted.take(j - start),
                moves@.skip(j + 1) == sorted.skip(j - start) + rest,
                placed(sorted, x) == placed(sorted.take(j - start), x) + sorted.skip(j - start),
            decreases j,
        {
            let y = moves[j - 1];
            let ghost before = moves@;
            proof {
                let shown = before.take(j as int);
                assert(shown[j - 1] == sorted[j - 1 - start]);
                let part = sorted.take(j - start);
                assert(part.drop_last() =~= sorted.take(j - 1 - start));
                assert(placed(part, x) == placed(part.drop_last(), x).push(part.last()));
                assert(sorted.skip(j - 1 - start) =~= seq![part.last()] + sorted.skip(j - start));
                assert(placed(part.drop_last(), x).push(part.last()) + sorted.skip(j - start)
                    =~= placed(part.drop_last(), x) + sorted.skip(j - 1 - start));
            }
            moves[j] = y;
            j -= 1;
            proof {
                assert(moves@.take(j as int) =~= before.take(j + 1).take(j as int));
                assert((head + sorted.take(j + 1 - start)).take(j as int) =~= head + sorted.take(
                    j - start,
                ));
                assert(moves@.skip(j + 1) =~= seq![y] + before.skip(j + 2));
                assert(moves@.skip(j + 1) =~= sorted.skip(j - start) + rest);
            }
        }
        proof {
            let part = sorted.take(j - start);
            if j > start {
                assert(moves@.take(j as int)[j - 1] == sorted[j - 1 - start]);
            }
            assert(placed(part, x) == part.push(x));
        }
        let ghost before = moves@;
        moves[j] = x;
        i += 1;
        proof {
            let next = all.subrange(start as int, i as int);
            assert(next.drop_last() =~= all.subrange(start as int, i - 1));
            assert(ranked(next) == placed(sorted, x));
            assert(moves@ =~= before.take(j as int) + seq![x] + before.skip(j + 1));
            lemma_placed(sorted, x);
            assert(moves@ =~= head + ranked(next) + all.skip(i as int));
        }
    }
    proof {
        assert(all.subrange(start as int, i as int) =~= all.skip(start as int));
        assert(moves@ =~= head + ranked(all.skip(start as int)));
    }
}

/// An eighth of a number, rounded towards zero.
pub open spec fn eighth(x: int) -> int {
    if x >= 0 {
        x / 8
    } else {
        -((-x) / 8)
    }
}

fn eighth_of(x: i32) -> (r: i32)
    requires
        large(x as int),
    ensures
        r == eighth(x as int),
{
    if x >= 0 {
        x / 8
    } else {
        -((-x) / 8)
    }
}

/// What a move wins: its victim, and what its promotion adds to the pawn.
pub open spec fn gain<B: Backend>(b: BoardModel, mv: Move) -> int {
    let victim = if mv.flag is EnPassant {
        B::worth(Piece::Pawn)
    } else if mv.flag.takes() {
        B::worth(b.mailbox[mv.dest]->0)
    } else {
        0
    };
    let promotion = match mv.flag.promotes_to() {
        Some(p) => B::worth(p) - B::worth(Piece::Pawn),
        None => 0,
    };
    victim + promotion
}

/// What a move wins: its victim, and what its promotion adds to the pawn.
pub fn mvv<B: Backend>(board: &Board, mv: Move) -> (r: i32)
    requires
        mv.flag.takes() ==> board@.mailbox[mv.dest] is Some,
    ensures
        r == gain::<B>(board@, mv),
        -3_000_000 <= r <= 3_000_000,
{
    let victim: i32 = if mv.flag().is_en_passant() {
        B::piece_value(Piece::Pawn)
    } else if mv.flag().is_capture() {
        match board.piece_on(mv.dest()) {
            Some(piece) => B::piece_value(piece),
            None => 0,
        }
    } else {
        0
    };
    let promotion: i32 = match mv.flag().promotion() {
        Some(p) => B::piece_value(p) - B::piece_value(Piece::Pawn),
        None => 0,
    };
    victim + promotion
}

/// By what a noisy move is ordered. A duck that cuts off an attacker of the
/// destination adds to it.
pub open spec fn noisy_score<B: Backend>(s: B::State, b: BoardModel, mv: Move) -> int {
    gain::<B>(b, mv) * 8 + eighth(B::noisy_of(s, b, mv)) + eighth(B::duck_of(s, b, mv)) + (
    if b.cutting_squares(b.stm, mv.dest).contains(mv.duck) {
        6000int
    } else {
        0
    })
}

/// By what a quiet move is ordered.
pub open spec fn quiet_score<B: Backend>(s: B::State, p: PositionModel, mv: Move) -> int {
    B::quiet_of(s, p.board(), mv) + B::duck_of(s, p.board(), mv) + B::cont_of(s, p, mv)
}

/// By what a move listed as noisy or quiet is ordered.
pub open spec fn move_score<B: Backend>(
    filter: MoveFilter,
    s: B::State,
    p: PositionModel,
    mv: Move,
) -> int {
    match filter {
        MoveFilter::Noisy => noisy_score::<B>(s, p.board(), mv),
        MoveFilter::Quiet => quiet_score::<B>(s, p, mv),
    }
}

/// A scored move. The move from the table is not scored: it has had its turn.
pub open spec fn with_score<B: Backend>(
    filter: MoveFilter,
    s: B::State,
    p: PositionModel,
    tt_move: Option<Move>,
    m: ScoredMove,
) -> ScoredMove {
    if tt_move == Some(m.0) {
        m
    } else {
        ScoredMove(m.0, move_score::<B>(filter, s, p, m.0) as i32)
    }
}

pub open spec fn moves_scored<B: Backend>(
    filter: MoveFilter,
    s: B::State,
    p: PositionModel,
    tt_move: Option<Move>,
    list: Seq<ScoredMove>,
) -> Seq<ScoredMove> {
    list.map_values(|m: ScoredMove| with_score::<B>(filter, s, p, tt_move, m))
}

/// Whether the scores of the moves from `start` on can be held, but for that of the
/// move from the table.
pub open spec fn scores_fit<B: Backend>(
    filter: MoveFilter,
    s: B::State,
    p: PositionModel,
    tt_move: Option<Move>,
    list: Seq<ScoredMove>,
    start: int,
) -> bool {
    forall|i: int|
        start <= i < list.len() && tt_move != Some((#[trigger] list[i]).0) ==> i32::MIN
            <= move_score::<B>(filter, s, p, list[i].0) <= i32::MAX
}

/// For each square, once it has been asked for, from where the duck cuts off an
/// attacker of it.
struct CutMemo {
    sets: Vec<Option<Bitboard>>,
}

impl CutMemo {
    spec fn holds(&self, b: BoardModel) -> bool {
        &&& self.sets@.len() == 64
        &&& forall|sq: Square|
            (#[trigger] self.sets@[sq.number()]) matches Some(set) ==> set@ == b.cutting_squares(
                b.stm,
                sq,
            )
    }

    fn new(board: &Board) -> (r: CutMemo)
        ensures
            r.holds(board@),
    {
        let mut sets: Vec<Option<Bitboard>> = Vec::new();
        while sets.len() < 64
            invariant
                sets@.len() <= 64,
                forall|k: int| 0 <= k < sets@.len() ==> #[trigger] sets@[k] is None,
            decreases 64 - sets@.len(),
        {
            sets.push(None);
        }
        let r = CutMemo { sets };
        assert(r.holds(board@)) by {
            assert forall|sq: Square| (#[trigger] r.sets@[sq.number()]) is None by {
                square_numbers_are_exact(sq, 0);
            }
        }
        r
    }

    fn cutting(&mut self, board: &Board, sq: Square) -> (r: Bitboard)
        requires
            old(self).holds(board@),
        ensures
            final(self).holds(board@),
            r@ == board@.cutting_squares(board@.stm, sq),
    {
        proof {
            square_numbers_are_exact(sq, 0);
        }
        let at = sq.index();
        if let Some(set) = self.sets[at] {
            assert(self.sets@[sq.number()] == Some(set));
            return set;
        }
        let set = board.slider_blocking_set(board.stm(), sq);
        self.sets[at] = Some(set);
        assert forall|other: Square|
            (#[trigger] self.sets@[other.number()]) is Some implies self.sets@[other.number()]->0@
            == board@.cutting_squares(board@.stm, other) by {
            square_numbers_are_exact(other, 0);
        }
        set
    }
}

/// By what a noisy move is ordered.
fn score_noisy<B: Backend>(board: &Board, shared: &B, memo: &mut CutMemo, mv: Move) -> (r: i32)
    requires
        old(memo).holds(board@),
        mv.flag.takes() ==> board@.mailbox[mv.dest] is Some,
    ensures
        final(memo).holds(board@),
        r == noisy_score::<B>(shared.state(), board@, mv),
{
    let bonus: i32 = if memo.cutting(board, mv.dest()).has(mv.duck()) {
        6000
    } else {
        0
    };
    mvv::<B>(board, mv) * 8 + eighth_of(shared.noisy(board, mv)) + eighth_of(
        shared.duck(board, mv),
    ) + bonus
}

/// By what a quiet move is ordered.
fn score_quiet<B: Backend>(pos: &Position, shared: &B, mv: Move) -> (r: i32)
    requires
        pos.wf(),
    ensures
        r == quiet_score::<B>(shared.state(), pos@, mv),
{
    let board = pos.board();
    shared.quiet(board, mv) + shared.duck(board, mv) + shared.cont(pos, mv)
}

/// Scores the moves from `start` on and puts the best first.
fn score_moves<B: Backend>(
    filter: MoveFilter,
    tt_move: Option<Move>,
    pos: &Position,
    shared: &B,
    moves: &mut [ScoredMove],
    start: usize,
)
    requires
        pos.wf(),
        start <= old(moves)@.len(),
        filter is Noisy ==> forall|i: int|
            start <= i < old(moves)@.len() && (#[trigger] old(moves)@[i]).0.flag.takes() && tt_move
                != Some(old(moves)@[i].0) ==> pos@.board().mailbox[old(moves)@[i].0.dest] is Some,
    ensures
        final(moves)@ == old(moves)@.take(start as int) + ranked(
            moves_scored::<B>(
                filter,
                shared.state(),
                pos@,
                tt_move,
                old(moves)@.skip(start as int),
            ),
        ),
        scores_fit::<B>(filter, shared.state(), pos@, tt_move, old(moves)@, start as int),
{
    let ghost all = old(moves)@;
    let ghost s = shared.state();
    let board = pos.board();
    let noisy = filter == MoveFilter::Noisy;
    let len = moves.len();
    let mut memo = CutMemo::new(board);
    let mut i: usize = start;
    while i < len
        invariant
            start <= i <= len,
            pos.wf(),
            board@ == pos@.board(),
            s == shared.state(),
            noisy == (filter is Noisy),
            len == all.len(),
            moves@.len() == len,
            memo.holds(board@),
            filter is Noisy ==> forall|k: int|
                start <= k < len && (#[trigger] all[k]).0.flag.takes() && tt_move != Some(all[k].0)
                    ==> board@.mailbox[all[k].0.dest] is Some,
            forall|k: int| 0 <= k < start ==> moves@[k] == #[trigger] all[k],
            forall|k: int| i <= k < len ==> moves@[k] == #[trigger] all[k],
            forall|k: int|
                start <= k < i ==> moves@[k] == with_score::<B>(
                    filter,
                    s,
                    pos@,
                    tt_move,
                    #[trigger] all[k],
                ),
            forall|k: int|
                start <= k < i && tt_move != Some((#[trigger] all[k]).0) ==> i32::MIN
                    <= move_score::<B>(filter, s, pos@, all[k].0) <= i32::MAX,
        decreases len - i,
    {
        let mv = moves[i].0;
        assert(moves@[i as int] == all[i as int]);
        if !same_move(tt_move, mv) {
            let score: i32 = if noisy {
                score_noisy(board, shared, &mut memo, mv)
            } else {
                score_quiet(pos, shared, mv)
            };
            moves[i].1 = score;
        }
        i += 1;
    }
    proof {
        assert(moves@.take(start as int) =~= all.take(start as int));
        assert(moves@.skip(start as int) =~= moves_scored::<B>(
            filter,
            s,
            pos@,
            tt_move,
            all.skip(start as int),
        ));
    }
    rank_from(moves, start);
}

/// Scores the noisy moves from `start` on and puts the best first.
pub fn score_noisies<B: Backend>(
    tt_move: Option<Move>,
    pos: &Position,
    shared: &B,
    moves: &mut [ScoredMove],
    start: usize,
)
    requires
        pos.wf(),
        start <= old(moves)@.len(),
        forall|i: int|
            start <= i < old(moves)@.len() && (#[trigger] old(moves)@[i]).0.flag.takes() && tt_move
                != Some(old(moves)@[i].0) ==> pos@.board().mailbox[old(moves)@[i].0.dest] is Some,
    ensures
        final(moves)@ == old(moves)@.take(start as int) + ranked(
            moves_scored::<B>(
                MoveFilter::Noisy,
                shared.state(),
                pos@,
                tt_move,
                old(moves)@.skip(start as int),
            ),
        ),
        forall|i: int|
            start <= i < old(moves)@.len() && tt_move != Some((#[trigger] old(moves)@[i]).0)
                ==> i32::MIN <= noisy_score::<B>(
                shared.state(),
                pos@.board(),
                old(moves)@[i].0,
            ) <= i32::MAX,
{
    score_moves(MoveFilter::Noisy, tt_move, pos, shared, moves, start);
}

/// Scores the quiet moves from `start` on and puts the best first.
pub fn score_quiets<B: Backend>(
    tt_move: Option<Move>,
    pos: &Position,
    shared: &B,
    moves: &mut [ScoredMove],
    start: usize,
)
    requires
        pos.wf(),
        start <= old(moves)@.len(),
    ensures
        final(moves)@ == old(moves)@.take(start as int) + ranked(
            moves_scored::<B>(
                MoveFilter::Quiet,
                shared.state(),
                pos@,
                tt_move,
                old(moves)@.skip(start as int),
            ),
        ),
        forall|i: int|
            start <= i < old(moves)@.len() && tt_move != Some((#[trigger] old(moves)@[i]).0)
                ==> i32::MIN <= quiet_score::<B>(shared.state(), pos@, old(moves)@[i].0)
                <= i32::MAX,
{
    score_moves(MoveFilter::Quiet, tt_move, pos, shared, moves, start);
}

/// Whether `known` is this move.
pub fn same_move(known: Option<Move>, mv: Move) -> (r: bool)
    ensures
        r == (known == Some(mv)),
{
    match known {
        Some(other) => other == mv,
        None => false,
    }
}

} // verus!
