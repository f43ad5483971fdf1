//! The numbers that position keys are made of. Each feature of a position has
//! one; the key of a position is the exclusive or of those of its features.

use crate::common::types::{square_numbers_are_exact, Color, File, Piece, Square};
use vstd::arithmetic::div_mod::{lemma_mod_multiples_vanish, lemma_mul_mod_noop_left};
use vstd::prelude::*;

verus! {

/// Scrambles a feature's number.
pub open spec fn scrambled(n: u64) -> u64 {
    let a = n.wrapping_mul(0x9e37_79b9_7f4a_7c15);
    let b = (a ^ (a >> 30)).wrapping_mul(0xbf58_476d_1ce4_e5b9);
    let c = (b ^ (b >> 27)).wrapping_mul(0x94d0_49bb_1331_11eb);
    c ^ (c >> 31)
}

fn scramble(n: u64) -> (r: u64)
    ensures
        r == scrambled(n),
{
    let a: u64 = n.wrapping_mul(0x9e37_79b9_7f4a_7c15);
    let b: u64 = (a ^ (a >> 30)).wrapping_mul(0xbf58_476d_1ce4_e5b9);
    let c: u64 = (b ^ (b >> 27)).wrapping_mul(0x94d0_49bb_1331_11eb);
    c ^ (c >> 31)
}

pub open spec fn piece_key(sq: Square, piece: Piece, color: Color) -> u64 {
    scrambled((1 + sq.number() + 64 * piece.number() + 384 * color.number()) as u64)
}

pub open spec fn castling_key(color: Color, file: File) -> u64 {
    scrambled((1000 + file.number() + 8 * color.number()) as u64)
}

pub open spec fn en_passant_key(file: File) -> u64 {
    scrambled((1100 + file.number()) as u64)
}

pub open spec fn duck_key(sq: Square) -> u64 {
    scrambled((1200 + sq.number()) as u64)
}

pub open spec fn turn_key() -> u64 {
    scrambled(1300)
}

proof fn lemma_product_undone(a: u64, factor: u64, inverse: u64, times: int)
    requires
        factor * inverse == 1 + times * 0x1_0000_0000_0000_0000,
    ensures
        (a.wrapping_mul(factor) * inverse) % 0x1_0000_0000_0000_0000 == a,
{
    let m: int = 0x1_0000_0000_0000_0000;
    lemma_mul_mod_noop_left(a * factor, inverse as int, m);
    assert((a * factor) * inverse == m * (a * times) + a) by (nonlinear_arith)
        requires
            factor * inverse == 1 + times * m,
    ;
    lemma_mod_multiples_vanish(a * times, a as int, m);
}

proof fn lemma_shifts_undone(x: u64)
    by (bit_vector)
    ensures
        ((x ^ (x >> 30)) ^ ((x ^ (x >> 30)) >> 30)) ^ ((x ^ (x >> 30)) >> 60) == x,
        ((x ^ (x >> 27)) ^ ((x ^ (x >> 27)) >> 27)) ^ ((x ^ (x >> 27)) >> 54) == x,
        ((x ^ (x >> 31)) ^ ((x ^ (x >> 31)) >> 31)) ^ ((x ^ (x >> 31)) >> 62) == x,
{
}

/// Scrambling keeps numbers apart, and gives zero for zero alone.
pub proof fn scrambling_keeps_numbers_apart(m: u64, n: u64)
    ensures
        scrambled(m) == scrambled(n) ==> m == n,
        scrambled(0) == 0,
{
    let a = m.wrapping_mul(0x9e37_79b9_7f4a_7c15);
    let b = (a ^ (a >> 30)).wrapping_mul(0xbf58_476d_1ce4_e5b9);
    let c = (b ^ (b >> 27)).wrapping_mul(0x94d0_49bb_1331_11eb);
    let d = n.wrapping_mul(0x9e37_79b9_7f4a_7c15);
    let e = (d ^ (d >> 30)).wrapping_mul(0xbf58_476d_1ce4_e5b9);
    let f = (e ^ (e >> 27)).wrapping_mul(0x94d0_49bb_1331_11eb);
    if scrambled(m) == scrambled(n) {
        lemma_shifts_undone(c);
        lemma_shifts_undone(f);
        assert(c == f);
        let (last, last_back, last_times) = (
            0x94d0_49bb_1331_11ebu64,
            0x3196_42b2_d24d_8ec3u64,
            2077064247507883091int,
        );
        lemma_product_undone(b ^ (b >> 27), last, last_back, last_times);
        lemma_product_undone(e ^ (e >> 27), last, last_back, last_times);
        lemma_shifts_undone(b);
        lemma_shifts_undone(e);
        assert(b == e);
        let (next, next_back, next_times) = (
            0xbf58_476d_1ce4_e5b9u64,
            0x96de_1b17_3f11_9089u64,
            8125545580553827436int,
        );
        lemma_product_undone(a ^ (a >> 30), next, next_back, next_times);
        lemma_product_undone(d ^ (d >> 30), next, next_back, next_times);
        lemma_shifts_undone(a);
        lemma_shifts_undone(d);
        assert(a == d);
        let (first, first_back, first_times) = (
            0x9e37_79b9_7f4a_7c15u64,
            0xf1de_83e1_9937_733du64,
            10771413168148108919int,
        );
        lemma_product_undone(m, first, first_back, first_times);
        lemma_product_undone(n, first, first_back, first_times);
    }
    assert(0u64 ^ (0u64 >> 30) == 0 && 0u64 ^ (0u64 >> 27) == 0 && 0u64 ^ (0u64 >> 31) == 0)
        by (bit_vector);
}

/// Each feature of a position has a number of its own, which is never zero: a piece
/// has another one on another square, for another kind and for the other side, and so
/// have rights, en passant files and ducks. So putting one feature in another's place
/// always changes the key.
pub proof fn every_feature_has_its_own_number(
    sq: Square,
    other: Square,
    kind: Piece,
    other_kind: Piece,
    color: Color,
    other_color: Color,
    file: File,
    other_file: File,
)
    ensures
        piece_key(sq, kind, color) == piece_key(other, other_kind, other_color) ==> sq == other
            && kind == other_kind && color == other_color,
        castling_key(color, file) == castling_key(other_color, other_file) ==> color == other_color
            && file == other_file,
        en_passant_key(file) == en_passant_key(other_file) ==> file == other_file,
        duck_key(sq) == duck_key(other) ==> sq == other,
        piece_key(sq, kind, color) != castling_key(other_color, file),
        piece_key(sq, kind, color) != en_passant_key(file),
        piece_key(sq, kind, color) != duck_key(other),
        piece_key(sq, kind, color) != turn_key(),
        castling_key(color, file) != en_passant_key(other_file),
        castling_key(color, file) != duck_key(sq),
        castling_key(color, file) != turn_key(),
        en_passant_key(file) != duck_key(sq),
        en_passant_key(file) != turn_key(),
        duck_key(sq) != turn_key(),
        piece_key(sq, kind, color) != 0,
        castling_key(color, file) != 0,
        en_passant_key(file) != 0,
        duck_key(sq) != 0,
        turn_key() != 0,
{
    square_numbers_are_exact(sq, 0);
    square_numbers_are_exact(other, 0);
    let here = (1 + sq.number() + 64 * kind.number() + 384 * color.number()) as u64;
    let there = (1 + other.number() + 64 * other_kind.number() + 384 * other_color.number()) as u64;
    let right = (1000 + file.number() + 8 * color.number()) as u64;
    let far_right = (1000 + file.number() + 8 * other_color.number()) as u64;
    let other_right = (1000 + other_file.number() + 8 * other_color.number()) as u64;
    let en_passant = (1100 + file.number()) as u64;
    let other_en_passant = (1100 + other_file.number()) as u64;
    let duck = (1200 + sq.number()) as u64;
    let other_duck = (1200 + other.number()) as u64;
    assert(here == there ==> sq.number() == other.number() && kind.number() == other_kind.number()
        && color.number() == other_color.number());
    scrambling_keeps_numbers_apart(here, there);
    scrambling_keeps_numbers_apart(right, other_right);
    scrambling_keeps_numbers_apart(en_passant, other_en_passant);
    scrambling_keeps_numbers_apart(duck, other_duck);
    scrambling_keeps_numbers_apart(here, far_right);
    scrambling_keeps_numbers_apart(here, en_passant);
    scrambling_keeps_numbers_apart(here, other_duck);
    scrambling_keeps_numbers_apart(here, 1300);
    scrambling_keeps_numbers_apart(right, other_en_passant);
    scrambling_keeps_numbers_apart(right, duck);
    scrambling_keeps_numbers_apart(right, 1300);
    scrambling_keeps_numbers_apart(en_passant, duck);
    scrambling_keeps_numbers_apart(en_passant, 1300);
    scrambling_keeps_numbers_apart(duck, 1300);
    scrambling_keeps_numbers_apart(here, 0);
    scrambling_keeps_numbers_apart(right, 0);
    scrambling_keeps_numbers_apart(en_passant, 0);
    scrambling_keeps_numbers_apart(duck, 0);
    scrambling_keeps_numbers_apart(1300, 0);
}

/// The number of a piece on a square.
pub fn piece(sq: Square, kind: Piece, color: Color) -> (r: u64)
    ensures
        r == piece_key(sq, kind, color),
{
    scramble(1 + sq.index() as u64 + 64 * kind.index() as u64 + 384 * color.index() as u64)
}

/// The number of the right to castle with the rook on a file.
pub fn castling_rights(color: Color, file: File) -> (r: u64)
    ensures
        r == castling_key(color, file),
{
    scramble(1000 + file.index() as u64 + 8 * color.index() as u64)
}

/// The number of an en passant capture on a file.
pub fn en_passant(file: File) -> (r: u64)
    ensures
        r == en_passant_key(file),
{
    scramble(1100 + file.index() as u64)
}

/// The number of the duck on a square.
pub fn duck(sq: Square) -> (r: u64)
    ensures
        r == duck_key(sq),
{
    scramble(1200 + sq.index() as u64)
}

/// The number that tells the two sides' turns apart.
pub fn stm() -> (r: u64)
    ensures
        r == turn_key(),
{
    scramble(1300)
}

} // verus!
