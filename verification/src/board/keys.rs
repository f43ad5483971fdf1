//! What the keys of a board are worth: they follow from what stands on it, and
//! every operation keeps it so.

use crate::board::board::{key_if, BoardModel};
use crate::board::state::{CastlingDirection, EnPassant};
use crate::board::zobrist::{castling_key, duck_key, en_passant_key, scrambled, turn_key};
use crate::common::bitboard::toggled_set;
use crate::common::types::{square_numbers_are_exact, Color, File, Piece, Square};
use vstd::prelude::*;

verus! {

proof fn lemma_xor_twice(a: u64, k: u64)
    by (bit_vector)
    ensures
        a ^ k ^ k == a,
        a ^ 0 == a,
        0 ^ a == a,
{
}

proof fn lemma_xor_swap(a: u64, j: u64, k: u64)
    by (bit_vector)
    ensures
        a ^ j ^ k == a ^ k ^ j,
        a ^ (j ^ k) == a ^ j ^ k,
{
}

/// The piece with the given number.
pub open spec fn piece_at(i: int) -> Piece {
    if i == 0 {
        Piece::Pawn
    } else if i == 1 {
        Piece::Knight
    } else if i == 2 {
        Piece::Bishop
    } else if i == 3 {
        Piece::Rook
    } else if i == 4 {
        Piece::Queen
    } else {
        Piece::King
    }
}

/// The color with the given number.
pub open spec fn color_at(i: int) -> Color {
    if i == 0 {
        Color::White
    } else {
        Color::Black
    }
}

/// Which of the six keys a piece counts for.
#[derive(Clone, Copy, PartialEq, Eq, Structural)]
pub enum Share {
    All,
    Pawns,
    Minors,
    Majors,
    WhitePieces,
    BlackPieces,
}

impl Share {
    /// Pawns have a key of their own; kings count as minor and as major pieces; a
    /// side's pieces are all but its pawns.
    pub open spec fn counts(self, piece: Piece, color: Color) -> bool {
        match self {
            Share::All => true,
            Share::Pawns => piece is Pawn,
            Share::Minors => piece is Knight || piece is Bishop || piece is King,
            Share::Majors => piece is Rook || piece is Queen || piece is King,
            Share::WhitePieces => !(piece is Pawn) && color is White,
            Share::BlackPieces => !(piece is Pawn) && color is Black,
        }
    }
}

/// Pieces on squares, numbered: the square, then the kind, then the side.
pub open spec fn feature(sq: Square, piece: Piece, color: Color) -> int {
    sq.number() + 64 * piece.number() + 384 * color.number()
}

/// Whether the piece with the given number stands on its square and counts.
pub open spec fn stands(b: BoardModel, share: Share, i: int) -> bool {
    let sq = Square::at(i % 64);
    let piece = piece_at((i / 64) % 6);
    let color = color_at(i / 384);
    b.of(color, piece).contains(sq) && share.counts(piece, color)
}

/// The exclusive or of the numbers of the pieces that stand on the board and
/// count, among the first `n`.
pub open spec fn pieces_key(b: BoardModel, share: Share, n: int) -> u64
    decreases n,
{
    if n <= 0 {
        0
    } else {
        pieces_key(b, share, n - 1) ^ key_if(stands(b, share, n - 1), scrambled(n as u64))
    }
}

pub open spec fn rook_key(b: BoardModel, color: Color, dir: CastlingDirection) -> u64 {
    let file = b.castling[color].in_direction(dir);
    key_if(file is Some, castling_key(color, file->0))
}

/// The key of what is not a piece: the rights, the duck, the turn.
pub open spec fn state_key(b: BoardModel) -> u64 {
    rook_key(b, Color::White, CastlingDirection::Short) ^ rook_key(
        b,
        Color::White,
        CastlingDirection::Long,
    ) ^ rook_key(b, Color::Black, CastlingDirection::Short) ^ rook_key(
        b,
        Color::Black,
        CastlingDirection::Long,
    ) ^ key_if(b.en_passant is Some, en_passant_key(b.en_passant->0.file)) ^ key_if(
        b.duck is Some,
        duck_key(b.duck->0),
    ) ^ key_if(b.stm is Black, turn_key())
}

/// Whether every key is the one that the rest of the board calls for.
pub open spec fn keys_current(b: BoardModel) -> bool {
    &&& b.hash == pieces_key(b, Share::All, 768) ^ state_key(b)
    &&& b.pawn_hash == pieces_key(b, Share::Pawns, 768)
    &&& b.minor_hash == pieces_key(b, Share::Minors, 768)
    &&& b.major_hash == pieces_key(b, Share::Majors, 768)
    &&& b.white_hash == pieces_key(b, Share::WhitePieces, 768)
    &&& b.black_hash == pieces_key(b, Share::BlackPieces, 768)
}

/// Whether a square is empty, or holds just this piece.
pub open spec fn free_or_own(b: BoardModel, sq: Square, piece: Piece, color: Color) -> bool {
    &&& forall|p: Piece| p != piece ==> !(#[trigger] b.pieces[p]).contains(sq)
    &&& !b.colors[color.opponent()].contains(sq)
    &&& b.pieces[piece].contains(sq) == b.colors[color].contains(sq)
}

proof fn lemma_feature_number(sq: Square, piece: Piece, color: Color, i: int)
    ensures
        0 <= feature(sq, piece, color) < 768,
        ({
            let f = feature(sq, piece, color);
            &&& Square::at(f % 64) == sq
            &&& piece_at((f / 64) % 6) == piece
            &&& color_at(f / 384) == color
        }),
        0 <= i < 768 ==> feature(
            Square::at(i % 64),
            piece_at((i / 64) % 6),
            color_at(i / 384),
        ) == i,
{
    square_numbers_are_exact(sq, i % 64);
    let f = feature(sq, piece, color);
    let s = sq.number();
    let p = piece.number() as int;
    let c = color.number() as int;
    assert(f == s + 64 * (p + 6 * c));
    assert(f % 64 == s && f / 64 == p + 6 * c);
    assert((p + 6 * c) % 6 == p);
    assert(f / 384 == c);
    assert(color_at(c) == color);
    assert(piece_at(p) == piece);
    if 0 <= i < 768 {
        let q = i / 64;
        assert(i == 64 * q + i % 64);
        assert(0 <= q < 12);
        assert(q == 6 * (q / 6) + q % 6);
        assert(i / 384 == q / 6);
        assert(piece_at(q % 6).number() == q % 6);
        assert(color_at(q / 6).number() == q / 6);
    }
}

/// If two boards agree on every counted piece among the first `n`, so do their keys.
proof fn lemma_same_key(a: BoardModel, b: BoardModel, share: Share, n: int)
    requires
        forall|i: int| 0 <= i < n ==> stands(a, share, i) == #[trigger] stands(b, share, i),
    ensures
        pieces_key(a, share, n) == pieces_key(b, share, n),
    decreases n,
{
    if n > 0 {
        lemma_same_key(a, b, share, n - 1);
        assert(stands(a, share, n - 1) == stands(b, share, n - 1));
    }
}

/// If two boards differ in one counted piece among the first `n`, their keys differ
/// by its number.
proof fn lemma_one_apart(a: BoardModel, b: BoardModel, share: Share, k: int, n: int)
    requires
        0 <= k < n,
        forall|i: int|
            0 <= i < n && i != k ==> stands(a, share, i) == #[trigger] stands(b, share, i),
        stands(a, share, k) != stands(b, share, k),
    ensures
        pieces_key(b, share, n) == pieces_key(a, share, n) ^ scrambled((k + 1) as u64),
    decreases n,
{
    let key = scrambled((k + 1) as u64);
    if k == n - 1 {
        lemma_same_key(a, b, share, n - 1);
        let rest = pieces_key(a, share, n - 1);
        lemma_xor_twice(rest, key);
    } else {
        lemma_one_apart(a, b, share, k, n - 1);
        assert(stands(a, share, n - 1) == stands(b, share, n - 1));
        let rest = pieces_key(a, share, n - 1);
        let last = key_if(stands(a, share, n - 1), scrambled(n as u64));
        lemma_xor_swap(rest, key, last);
    }
}

proof fn lemma_toggled_share(
    b: BoardModel,
    sq: Square,
    piece: Piece,
    color: Color,
    share: Share,
)
    requires
        free_or_own(b, sq, piece, color),
    ensures
        pieces_key(b.with_toggled(sq, piece, color), share, 768) == pieces_key(b, share, 768)
            ^ key_if(
            share.counts(piece, color),
            crate::board::zobrist::piece_key(sq, piece, color),
        ),
{
    let a = b.with_toggled(sq, piece, color);
    let k = feature(sq, piece, color);
    lemma_feature_number(sq, piece, color, 0);
    assert forall|i: int| 0 <= i < 768 && i != k implies stands(b, share, i) == #[trigger] stands(
        a,
        share,
        i,
    ) by {
        let s = Square::at(i % 64);
        let p = piece_at((i / 64) % 6);
        let c = color_at(i / 384);
        lemma_feature_number(s, p, c, i);
        if s == sq {
            if p != piece {
                assert(!b.pieces[p].contains(sq));
                assert(a.pieces[p] == b.pieces[p]);
            } else {
                assert(c != color);
                assert(c == color.opponent());
                assert(a.colors[c] == b.colors[c]);
            }
        } else {
            assert(toggled_set(b.pieces[piece], sq).contains(s) == b.pieces[piece].contains(s));
            assert(toggled_set(b.colors[color], sq).contains(s) == b.colors[color].contains(s));
            assert(a.pieces[p].contains(s) == b.pieces[p].contains(s));
            assert(a.colors[c].contains(s) == b.colors[c].contains(s));
        }
    }
    assert(a.of(color, piece).contains(sq) != b.of(color, piece).contains(sq));
    lemma_xor_twice(pieces_key(b, share, 768), 0);
    if share.counts(piece, color) {
        lemma_one_apart(b, a, share, k, 768);
    } else {
        lemma_same_key(b, a, share, 768);
    }
}

/// Two boards with the same pieces have the same piece keys.
proof fn lemma_same_pieces(a: BoardModel, b: BoardModel)
    requires
        a.pieces == b.pieces,
        a.colors == b.colors,
    ensures
        forall|share: Share| pieces_key(a, share, 768) == #[trigger] pieces_key(b, share, 768),
{
    assert forall|share: Share| pieces_key(a, share, 768) == #[trigger] pieces_key(
        b,
        share,
        768,
    ) by {
        lemma_same_key(a, b, share, 768);
    }
}

/// An empty board with White to move has no keys to keep.
pub proof fn empty_board_keys(b: BoardModel)
    requires
        forall|p: Piece| #[trigger] b.pieces[p] == Set::<Square>::empty(),
        forall|c: Color|
            #![trigger b.castling[c]]
            b.castling[c].short is None && b.castling[c].long is None,
        b.en_passant is None && b.duck is None && b.stm is White,
        b.hash == 0 && b.pawn_hash == 0 && b.minor_hash == 0 && b.major_hash == 0,
        b.white_hash == 0 && b.black_hash == 0,
    ensures
        keys_current(b),
{
    assert forall|share: Share| #[trigger] pieces_key(b, share, 768) == 0 by {
        lemma_no_pieces(b, share, 768);
    }
    lemma_xor_twice(0, 0);
}

proof fn lemma_no_pieces(b: BoardModel, share: Share, n: int)
    requires
        forall|p: Piece| #[trigger] b.pieces[p] == Set::<Square>::empty(),
    ensures
        pieces_key(b, share, n) == 0,
    decreases n,
{
    if n > 0 {
        lemma_no_pieces(b, share, n - 1);
        lemma_xor_twice(0, 0);
    }
}

/// Putting a piece on an empty square, or taking it from its own, keeps the keys
/// current.
pub proof fn toggling_keeps_keys_current(b: BoardModel, sq: Square, piece: Piece, color: Color)
    requires
        keys_current(b),
        free_or_own(b, sq, piece, color),
    ensures
        keys_current(b.with_toggled(sq, piece, color)),
{
    let a = b.with_toggled(sq, piece, color);
    lemma_toggled_share(b, sq, piece, color, Share::All);
    lemma_toggled_share(b, sq, piece, color, Share::Pawns);
    lemma_toggled_share(b, sq, piece, color, Share::Minors);
    lemma_toggled_share(b, sq, piece, color, Share::Majors);
    lemma_toggled_share(b, sq, piece, color, Share::WhitePieces);
    lemma_toggled_share(b, sq, piece, color, Share::BlackPieces);
    let key = crate::board::zobrist::piece_key(sq, piece, color);
    lemma_xor_swap(pieces_key(b, Share::All, 768), state_key(b), key);
    assert(state_key(a) == state_key(b));
}

/// Toggling a piece twice changes nothing.
pub proof fn toggling_twice_restores(b: BoardModel, sq: Square, piece: Piece, color: Color)
    requires
        b.pieces.dom().contains(piece),
        b.colors.dom().contains(color),
    ensures
        b.with_toggled(sq, piece, color).with_toggled(sq, piece, color) == b,
{
    let key = crate::board::zobrist::piece_key(sq, piece, color);
    let a = b.with_toggled(sq, piece, color);
    let c = a.with_toggled(sq, piece, color);
    assert(toggled_set(toggled_set(b.pieces[piece], sq), sq) =~= b.pieces[piece]);
    assert(toggled_set(toggled_set(b.colors[color], sq), sq) =~= b.colors[color]);
    assert(c.pieces =~= b.pieces);
    assert(c.colors =~= b.colors);
    lemma_xor_twice(b.hash, key);
    lemma_xor_twice(b.pawn_hash, key);
    lemma_xor_twice(b.minor_hash, key);
    lemma_xor_twice(b.major_hash, key);
    lemma_xor_twice(b.white_hash, key);
    lemma_xor_twice(b.black_hash, key);
}

/// The order in which two pieces are toggled does not matter.
pub proof fn toggles_commute(
    b: BoardModel,
    sq: Square,
    piece: Piece,
    color: Color,
    sq2: Square,
    piece2: Piece,
    color2: Color,
)
    ensures
        b.with_toggled(sq, piece, color).with_toggled(sq2, piece2, color2) == b.with_toggled(
            sq2,
            piece2,
            color2,
        ).with_toggled(sq, piece, color),
{
    let l = b.with_toggled(sq, piece, color).with_toggled(sq2, piece2, color2);
    let r = b.with_toggled(sq2, piece2, color2).with_toggled(sq, piece, color);
    let j = crate::board::zobrist::piece_key(sq, piece, color);
    let k = crate::board::zobrist::piece_key(sq2, piece2, color2);
    assert(toggled_set(toggled_set(b.pieces[piece], sq), sq2) =~= toggled_set(
        toggled_set(b.pieces[piece], sq2),
        sq,
    ));
    assert(toggled_set(toggled_set(b.colors[color], sq), sq2) =~= toggled_set(
        toggled_set(b.colors[color], sq2),
        sq,
    ));
    assert(l.pieces =~= r.pieces);
    assert(l.colors =~= r.colors);
    lemma_xor_swap(b.hash, j, k);
    lemma_xor_swap(b.pawn_hash, key_if(piece is Pawn, j), key_if(piece2 is Pawn, k));
    lemma_xor_swap(
        b.minor_hash,
        key_if(Share::Minors.counts(piece, color), j),
        key_if(Share::Minors.counts(piece2, color2), k),
    );
    lemma_xor_swap(
        b.major_hash,
        key_if(Share::Majors.counts(piece, color), j),
        key_if(Share::Majors.counts(piece2, color2), k),
    );
    lemma_xor_swap(
        b.white_hash,
        key_if(Share::WhitePieces.counts(piece, color), j),
        key_if(Share::WhitePieces.counts(piece2, color2), k),
    );
    lemma_xor_swap(
        b.black_hash,
        key_if(Share::BlackPieces.counts(piece, color), j),
        key_if(Share::BlackPieces.counts(piece2, color2), k),
    );
}

proof fn lemma_replace_one(h: u64, a: u64, b: u64, c: u64, d: u64, e: u64, f: u64, g: u64, x: u64)
    by (bit_vector)
    ensures
        (h ^ (a ^ b ^ c ^ d ^ e ^ f ^ g)) ^ a ^ x == h ^ (x ^ b ^ c ^ d ^ e ^ f ^ g),
        (h ^ (a ^ b ^ c ^ d ^ e ^ f ^ g)) ^ b ^ x == h ^ (a ^ x ^ c ^ d ^ e ^ f ^ g),
        (h ^ (a ^ b ^ c ^ d ^ e ^ f ^ g)) ^ c ^ x == h ^ (a ^ b ^ x ^ d ^ e ^ f ^ g),
        (h ^ (a ^ b ^ c ^ d ^ e ^ f ^ g)) ^ d ^ x == h ^ (a ^ b ^ c ^ x ^ e ^ f ^ g),
        (h ^ (a ^ b ^ c ^ d ^ e ^ f ^ g)) ^ e ^ x == h ^ (a ^ b ^ c ^ d ^ x ^ f ^ g),
        (h ^ (a ^ b ^ c ^ d ^ e ^ f ^ g)) ^ f ^ x == h ^ (a ^ b ^ c ^ d ^ e ^ x ^ g),
        (h ^ (a ^ b ^ c ^ d ^ e ^ f ^ g)) ^ g ^ x == h ^ (a ^ b ^ c ^ d ^ e ^ f ^ x),
{
}

proof fn lemma_replace_in_state(b: BoardModel, x: u64)
    ensures
        ({
            let h = pieces_key(b, Share::All, 768);
            let ws = rook_key(b, Color::White, CastlingDirection::Short);
            let wl = rook_key(b, Color::White, CastlingDirection::Long);
            let bs = rook_key(b, Color::Black, CastlingDirection::Short);
            let bl = rook_key(b, Color::Black, CastlingDirection::Long);
            let ep = key_if(b.en_passant is Some, en_passant_key(b.en_passant->0.file));
            let du = key_if(b.duck is Some, duck_key(b.duck->0));
            let tu = key_if(b.stm is Black, turn_key());
            let all = h ^ state_key(b);
            &&& all ^ ws ^ x == h ^ (x ^ wl ^ bs ^ bl ^ ep ^ du ^ tu)
            &&& all ^ wl ^ x == h ^ (ws ^ x ^ bs ^ bl ^ ep ^ du ^ tu)
            &&& all ^ bs ^ x == h ^ (ws ^ wl ^ x ^ bl ^ ep ^ du ^ tu)
            &&& all ^ bl ^ x == h ^ (ws ^ wl ^ bs ^ x ^ ep ^ du ^ tu)
            &&& all ^ ep ^ x == h ^ (ws ^ wl ^ bs ^ bl ^ x ^ du ^ tu)
            &&& all ^ du ^ x == h ^ (ws ^ wl ^ bs ^ bl ^ ep ^ x ^ tu)
            &&& all ^ tu ^ x == h ^ (ws ^ wl ^ bs ^ bl ^ ep ^ du ^ x)
        }),
{
    lemma_replace_one(
        pieces_key(b, Share::All, 768),
        rook_key(b, Color::White, CastlingDirection::Short),
        rook_key(b, Color::White, CastlingDirection::Long),
        rook_key(b, Color::Black, CastlingDirection::Short),
        rook_key(b, Color::Black, CastlingDirection::Long),
        key_if(b.en_passant is Some, en_passant_key(b.en_passant->0.file)),
        key_if(b.duck is Some, duck_key(b.duck->0)),
        key_if(b.stm is Black, turn_key()),
        x,
    );
}

/// Moving the duck, or taking it off the board, keeps the keys current.
pub proof fn duck_keeps_keys_current(b: BoardModel, duck: Option<Square>)
    requires
        keys_current(b),
    ensures
        keys_current(b.with_duck(duck)),
{
    lemma_same_pieces(b, b.with_duck(duck));
    lemma_replace_in_state(b, key_if(duck is Some, duck_key(duck->0)));
}

/// Changing the en passant capture keeps the keys current.
pub proof fn en_passant_keeps_keys_current(b: BoardModel, en_passant: Option<EnPassant>)
    requires
        keys_current(b),
    ensures
        keys_current(b.with_en_passant(en_passant)),
{
    lemma_same_pieces(b, b.with_en_passant(en_passant));
    lemma_replace_in_state(b, key_if(en_passant is Some, en_passant_key(en_passant->0.file)));
}

/// Changing a right to castle keeps the keys current.
pub proof fn castling_keeps_keys_current(
    b: BoardModel,
    color: Color,
    dir: CastlingDirection,
    file: Option<File>,
)
    requires
        keys_current(b),
    ensures
        keys_current(b.with_castling(color, dir, file)),
{
    let a = b.with_castling(color, dir, file);
    lemma_same_pieces(b, a);
    lemma_replace_in_state(b, key_if(file is Some, castling_key(color, file->0)));
    assert(a.castling[color.opponent()] == b.castling[color.opponent()]);
    assert(rook_key(a, color, dir) == key_if(file is Some, castling_key(color, file->0)));
}

/// Passing the turn keeps the keys current.
pub proof fn turn_keeps_keys_current(b: BoardModel)
    requires
        keys_current(b),
    ensures
        keys_current(b.with_turn_passed()),
{
    let a = b.with_turn_passed();
    lemma_same_pieces(b, a);
    let k = turn_key();
    lemma_replace_in_state(b, key_if(a.stm is Black, k));
    lemma_xor_twice(b.hash, k);
    lemma_xor_twice(b.hash ^ k, 0);
    lemma_xor_twice(b.hash, 0);
}

/// The duckless key is the key of the same board with the duck taken off.
pub proof fn duckless_key_is_the_key_without_the_duck(b: BoardModel)
    ensures
        b.duckless_key() == b.with_duck(None).hash,
        b.duck is None ==> b.duckless_key() == b.hash,
{
    lemma_xor_twice(b.duckless_key(), 0);
    lemma_xor_twice(b.hash, 0);
}

/// Two boards that differ only in where the duck is have the same duckless key.
pub proof fn duckless_key_ignores_the_duck(b: BoardModel, duck: Option<Square>)
    ensures
        b.with_duck(duck).duckless_key() == b.duckless_key(),
{
    let k = key_if(duck is Some, duck_key(duck->0));
    lemma_xor_twice(b.duckless_key(), k);
}

/// Moving the duck away and back changes nothing.
pub proof fn duck_moves_can_be_undone(b: BoardModel, duck: Option<Square>)
    ensures
        b.with_duck(duck).with_duck(b.duck) == b,
{
    let was = key_if(b.duck is Some, duck_key(b.duck->0));
    let now = key_if(duck is Some, duck_key(duck->0));
    lemma_xor_twice(b.hash ^ was, now);
    lemma_xor_twice(b.hash, was);
}

/// Changing the en passant capture and changing it back changes nothing.
pub proof fn en_passant_can_be_undone(b: BoardModel, en_passant: Option<EnPassant>)
    ensures
        b.with_en_passant(en_passant).with_en_passant(b.en_passant) == b,
{
    let was = key_if(b.en_passant is Some, en_passant_key(b.en_passant->0.file));
    let now = key_if(en_passant is Some, en_passant_key(en_passant->0.file));
    lemma_xor_twice(b.hash ^ was, now);
    lemma_xor_twice(b.hash, was);
}

/// Working out the en passant capture a second time changes nothing.
pub proof fn en_passant_is_settled_once(b: BoardModel, file: File)
    ensures
        ({
            let once = b.with_en_passant(b.en_passant_on(file));
            once.with_en_passant(once.en_passant_on(file)) == once
        }),
{
    let once = b.with_en_passant(b.en_passant_on(file));
    assert(once.taken() == b.taken());
    let k = key_if(once.en_passant is Some, en_passant_key(once.en_passant->0.file));
    lemma_xor_twice(once.hash, k);
}

/// Changing a right to castle and changing it back changes nothing.
pub proof fn castling_can_be_undone(
    b: BoardModel,
    color: Color,
    dir: CastlingDirection,
    file: Option<File>,
)
    requires
        b.castling.dom().contains(color),
    ensures
        b.with_castling(color, dir, file).with_castling(
            color,
            dir,
            b.castling[color].in_direction(dir),
        ) == b,
{
    let rights = b.castling[color];
    let before = rights.in_direction(dir);
    let was = key_if(before is Some, castling_key(color, before->0));
    let now = key_if(file is Some, castling_key(color, file->0));
    lemma_xor_twice(b.hash ^ was, now);
    lemma_xor_twice(b.hash, was);
    assert(rights.with(dir, file).with(dir, before) == rights);
    assert(b.with_castling(color, dir, file).with_castling(color, dir, before).castling
        =~= b.castling);
}

/// Passing the turn twice changes nothing.
pub proof fn passing_the_turn_twice_restores(b: BoardModel)
    ensures
        b.with_turn_passed().with_turn_passed() == b,
{
    lemma_xor_twice(b.hash, turn_key());
}

} // verus!
