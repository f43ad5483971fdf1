//! How pieces reach across the board.

use crate::common::bitboard::Bitboard;
use crate::common::types::{square_numbers_are_exact, Color, Square};
use vstd::prelude::*;

verus! {

/// Files from `a` to `b`, counted towards the king's side.
pub open spec fn file_step(a: Square, b: Square) -> int {
    b.file.number() - a.file.number()
}

/// Ranks from `a` to `b`, counted away from White's side.
pub open spec fn rank_step(a: Square, b: Square) -> int {
    b.rank.number() - a.rank.number()
}

pub open spec fn magnitude(x: int) -> int {
    if x < 0 {
        -x
    } else {
        x
    }
}

pub open spec fn sign(x: int) -> int {
    if x < 0 {
        -1
    } else if x == 0 {
        0
    } else {
        1
    }
}

/// King moves from `a` to `b` on an empty board.
pub open spec fn distance(a: Square, b: Square) -> int {
    let f = magnitude(file_step(a, b));
    let r = magnitude(rank_step(a, b));
    if f < r {
        r
    } else {
        f
    }
}

pub open spec fn on_diagonal(a: Square, b: Square) -> bool {
    a != b && magnitude(file_step(a, b)) == magnitude(rank_step(a, b))
}

pub open spec fn on_line(a: Square, b: Square) -> bool {
    a != b && (file_step(a, b) == 0 || rank_step(a, b) == 0)
}

/// Whether `c` lies strictly between `a` and `b` on a file, a rank or a diagonal.
pub open spec fn strictly_between(a: Square, b: Square, c: Square) -> bool {
    &&& on_diagonal(a, b) || on_line(a, b)
    &&& on_diagonal(a, c) || on_line(a, c)
    &&& sign(file_step(a, c)) == sign(file_step(a, b))
    &&& sign(rank_step(a, c)) == sign(rank_step(a, b))
    &&& distance(a, c) < distance(a, b)
}

/// The squares strictly between `a` and `b`; none unless the two are aligned.
pub open spec fn between_set(a: Square, b: Square) -> Set<Square> {
    Set::new(|c: Square| strictly_between(a, b, c))
}

/// Whether no blocker stands strictly between `a` and `b`.
pub open spec fn path_clear(blockers: Set<Square>, a: Square, b: Square) -> bool {
    forall|c: Square| #[trigger] strictly_between(a, b, c) ==> !blockers.contains(c)
}

pub open spec fn knight_set(sq: Square) -> Set<Square> {
    Set::new(
        |t: Square|
            (magnitude(file_step(sq, t)) == 1 && magnitude(rank_step(sq, t)) == 2) || (magnitude(
                file_step(sq, t),
            ) == 2 && magnitude(rank_step(sq, t)) == 1),
    )
}

pub open spec fn king_set(sq: Square) -> Set<Square> {
    Set::new(|t: Square| distance(sq, t) == 1)
}

/// The rank step of a pawn's advance.
pub open spec fn forward(color: Color) -> int {
    match color {
        Color::White => 1,
        Color::Black => -1,
    }
}

pub open spec fn pawn_set(sq: Square, color: Color) -> Set<Square> {
    Set::new(
        |t: Square| magnitude(file_step(sq, t)) == 1 && rank_step(sq, t) == forward(color),
    )
}

pub open spec fn bishop_set(blockers: Set<Square>, sq: Square) -> Set<Square> {
    Set::new(|t: Square| on_diagonal(sq, t) && path_clear(blockers, sq, t))
}

pub open spec fn rook_set(blockers: Set<Square>, sq: Square) -> Set<Square> {
    Set::new(|t: Square| on_line(sq, t) && path_clear(blockers, sq, t))
}

fn file_gap(a: Square, b: Square) -> (r: i8)
    ensures
        r == file_step(a, b),
        -8 < r < 8,
{
    b.file().index() as i8 - a.file().index() as i8
}

fn rank_gap(a: Square, b: Square) -> (r: i8)
    ensures
        r == rank_step(a, b),
        -8 < r < 8,
{
    b.rank().index() as i8 - a.rank().index() as i8
}

fn size(x: i8) -> (r: i8)
    requires
        -8 < x < 8,
    ensures
        r == magnitude(x as int),
        0 <= r < 8,
{
    if x < 0 {
        -x
    } else {
        x
    }
}

fn direction(x: i8) -> (r: i8)
    ensures
        r == sign(x as int),
{
    if x < 0 {
        -1
    } else if x == 0 {
        0
    } else {
        1
    }
}

fn gap(a: Square, b: Square) -> (r: i8)
    ensures
        r == distance(a, b),
{
    let f = size(file_gap(a, b));
    let r = size(rank_gap(a, b));
    if f < r {
        r
    } else {
        f
    }
}

fn diagonal(a: Square, b: Square) -> (r: bool)
    ensures
        r == on_diagonal(a, b),
{
    a != b && size(file_gap(a, b)) == size(rank_gap(a, b))
}

fn line(a: Square, b: Square) -> (r: bool)
    ensures
        r == on_line(a, b),
{
    a != b && (file_gap(a, b) == 0 || rank_gap(a, b) == 0)
}

fn lies_between(a: Square, b: Square, c: Square) -> (r: bool)
    ensures
        r == strictly_between(a, b, c),
{
    (diagonal(a, b) || line(a, b)) && (diagonal(a, c) || line(a, c)) && direction(file_gap(a, c))
        == direction(file_gap(a, b)) && direction(rank_gap(a, c)) == direction(rank_gap(a, b))
        && gap(a, c) < gap(a, b)
}

/// The squares that pass a test.
fn squares_where(test: impl Fn(Square) -> bool, Ghost(set): Ghost<Set<Square>>) -> (r: Bitboard)
    requires
        forall|sq: Square| call_requires(test, (sq,)),
        forall|sq: Square, passes: bool|
            call_ensures(test, (sq,), passes) ==> passes == set.contains(sq),
    ensures
        r@ == set,
{
    let mut r = Bitboard::empty();
    let mut i: usize = 0;
    while i < 64
        invariant
            i <= 64,
            forall|sq: Square| call_requires(test, (sq,)),
            forall|sq: Square, passes: bool|
                call_ensures(test, (sq,), passes) ==> passes == set.contains(sq),
            forall|t: Square| #[trigger] r@.contains(t) <==> t.number() < i && set.contains(t),
        decreases 64 - i,
    {
        let t = Square::from_index(i);
        let ghost before = r@;
        if test(t) {
            r = r.union(Bitboard::single(t));
        }
        proof {
            assert forall|s: Square| #[trigger]
                r@.contains(s) <==> s.number() < i + 1 && set.contains(s) by {
                square_numbers_are_exact(s, i as int);
                square_numbers_are_exact(t, i as int);
                assert(before.contains(s) <==> s.number() < i && set.contains(s));
            }
        }
        i += 1;
    }
    proof {
        assert forall|s: Square| #[trigger] r@.contains(s) <==> set.contains(s) by {
            square_numbers_are_exact(s, 0);
        }
        assert(r@ =~= set);
    }
    r
}

/// The squares strictly between `a` and `b`; none unless the two are aligned.
pub fn between(a: Square, b: Square) -> (r: Bitboard)
    ensures
        r@ == between_set(a, b),
{
    let test = |t: Square| -> (passes: bool)
        ensures
            passes == between_set(a, b).contains(t),
    { lies_between(a, b, t) };
    squares_where(test, Ghost(between_set(a, b)))
}

fn is_clear(blockers: Bitboard, a: Square, b: Square) -> (r: bool)
    ensures
        r == path_clear(blockers@, a, b),
{
    let standing = between(a, b).intersection(blockers);
    proof {
        if standing@ == Set::<Square>::empty() {
            assert forall|c: Square| #[trigger]
                strictly_between(a, b, c) implies !blockers@.contains(c) by {
                assert(!standing@.contains(c));
            }
        } else {
            if path_clear(blockers@, a, b) {
                assert(standing@ =~= Set::<Square>::empty());
            }
        }
    }
    standing.is_empty()
}

/// The squares a knight on `sq` attacks.
pub fn knight_attacks(sq: Square) -> (r: Bitboard)
    ensures
        r@ == knight_set(sq),
{
    let test = |t: Square| -> (passes: bool)
        ensures
            passes == knight_set(sq).contains(t),
    {
                (size(file_gap(sq, t)) == 1 && size(rank_gap(sq, t)) == 2) || (size(
                    file_gap(sq, t),
                ) == 2 && size(rank_gap(sq, t)) == 1)
            };
    squares_where(test, Ghost(knight_set(sq)))
}

/// The squares a king on `sq` attacks.
pub fn king_attacks(sq: Square) -> (r: Bitboard)
    ensures
        r@ == king_set(sq),
{
    let test = |t: Square| -> (passes: bool)
        ensures
            passes == king_set(sq).contains(t),
    { gap(sq, t) == 1 };
    squares_where(test, Ghost(king_set(sq)))
}

fn advance(color: Color) -> (r: i8)
    ensures
        r == forward(color),
{
    match color {
        Color::White => 1,
        Color::Black => -1,
    }
}

/// The squares a pawn of the given color on `sq` attacks.
pub fn pawn_attacks(sq: Square, color: Color) -> (r: Bitboard)
    ensures
        r@ == pawn_set(sq, color),
{
    let test = |t: Square| -> (passes: bool)
        ensures
            passes == pawn_set(sq, color).contains(t),
    { size(file_gap(sq, t)) == 1 && rank_gap(sq, t) == advance(color) };
    squares_where(test, Ghost(pawn_set(sq, color)))
}

/// The squares a bishop on `sq` attacks when `blockers` stop it.
pub fn bishop_attacks(blockers: Bitboard, sq: Square) -> (r: Bitboard)
    ensures
        r@ == bishop_set(blockers@, sq),
{
    let test = |t: Square| -> (passes: bool)
        ensures
            passes == bishop_set(blockers@, sq).contains(t),
    { diagonal(sq, t) && is_clear(blockers, sq, t) };
    squares_where(test, Ghost(bishop_set(blockers@, sq)))
}

/// The squares a rook on `sq` attacks when `blockers` stop it.
pub fn rook_attacks(blockers: Bitboard, sq: Square) -> (r: Bitboard)
    ensures
        r@ == rook_set(blockers@, sq),
{
    let test = |t: Square| -> (passes: bool)
        ensures
            passes == rook_set(blockers@, sq).contains(t),
    { line(sq, t) && is_clear(blockers, sq, t) };
    squares_where(test, Ghost(rook_set(blockers@, sq)))
}

} // verus!
