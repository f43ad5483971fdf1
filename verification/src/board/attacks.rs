//! What the pieces strike, in files and ranks, and what follows for the board.

use crate::board::board::{BoardModel, TerminalState};
use crate::board::safety::{
    attacked, check_is_an_attack_on_the_king, saving_squares_save_the_king,
};
use crate::board::state::{CastlingDirection, EnPassant};
use crate::board::zobrist::piece_key;
use crate::common::bitboard::first_is_lowest;
use crate::common::geometry::{
    between_set, bishop_set, king_set, knight_set, path_clear, pawn_set, rook_set,
    strictly_between,
};
use crate::common::types::{square_numbers_are_exact, Color, File, Piece, Rank, Square};
use crate::rules::{legal, MoveFilter, Rules};
use vstd::prelude::*;

verus! {

/// Whether `c` stands on the way from `a` to `b`: on the same file, rank or diagonal
/// as both, after the one and before the other.
pub open spec fn on_the_way(a: Square, b: Square, c: Square) -> bool {
    let (af, ar) = (a.file.number() as int, a.rank.number() as int);
    let (bf, br) = (b.file.number() as int, b.rank.number() as int);
    let (cf, cr) = (c.file.number() as int, c.rank.number() as int);
    ||| af == bf && cf == af && (ar < cr < br || br < cr < ar)
    ||| ar == br && cr == ar && (af < cf < bf || bf < cf < af)
    ||| af - ar == bf - br && cf - cr == af - ar && (af < cf < bf || bf < cf < af)
    ||| af + ar == bf + br && cf + cr == af + ar && (af < cf < bf || bf < cf < af)
}

/// Whether nothing in a set of squares stands on the way.
pub open spec fn way_free(blockers: Set<Square>, a: Square, b: Square) -> bool {
    forall|c: Square| #[trigger] blockers.contains(c) ==> !on_the_way(a, b, c)
}

/// Whether a piece of a side that stands on `from` strikes `to`.
pub open spec fn strikes(
    piece: Piece,
    side: Color,
    from: Square,
    to: Square,
    blockers: Set<Square>,
) -> bool {
    let files = to.file.number() - from.file.number();
    let ranks = to.rank.number() - from.rank.number();
    let slants = from != to && (files == ranks || files == -ranks) && way_free(blockers, from, to);
    let runs = from != to && (files == 0 || ranks == 0) && way_free(blockers, from, to);
    match piece {
        Piece::Pawn => (files == 1 || files == -1) && (side is White && ranks == 1
            || side is Black && ranks == -1),
        Piece::Knight => (files == 1 || files == -1) && (ranks == 2 || ranks == -2) || (files == 2
            || files == -2) && (ranks == 1 || ranks == -1),
        Piece::Bishop => slants,
        Piece::Rook => runs,
        Piece::Queen => slants || runs,
        Piece::King => from != to && -1 <= files <= 1 && -1 <= ranks <= 1,
    }
}

/// Whether a piece of the side other than `color` that stands on `from` strikes `to`.
pub open spec fn enemy_strikes(
    b: BoardModel,
    color: Color,
    from: Square,
    to: Square,
    blockers: Set<Square>,
) -> bool {
    exists|piece: Piece, side: Color|
        #![trigger b.pieces[piece], b.colors[side]]
        side != color && b.pieces[piece].contains(from) && b.colors[side].contains(from)
            && strikes(piece, side, from, to, blockers)
}

proof fn lemma_same_square(a: Square, b: Square)
    ensures
        a == b <==> a.file.number() == b.file.number() && a.rank.number() == b.rank.number(),
{
}

/// The squares between two squares are those on the way from one to the other, in
/// either direction.
pub proof fn between_is_on_the_way(a: Square, b: Square, c: Square)
    ensures
        between_set(a, b).contains(c) <==> on_the_way(a, b, c),
        on_the_way(a, b, c) <==> on_the_way(b, a, c),
{
    lemma_same_square(a, b);
    lemma_same_square(a, c);
}

proof fn lemma_way_free(blockers: Set<Square>, a: Square, b: Square)
    ensures
        path_clear(blockers, a, b) <==> way_free(blockers, a, b),
        way_free(blockers, a, b) <==> way_free(blockers, b, a),
{
    assert forall|c: Square| #[trigger] strictly_between(a, b, c) <==> on_the_way(a, b, c) by {
        between_is_on_the_way(a, b, c);
    }
    assert forall|c: Square| on_the_way(a, b, c) <==> on_the_way(b, a, c) by {
        between_is_on_the_way(a, b, c);
    }
    if path_clear(blockers, a, b) {
        assert forall|c: Square| #[trigger] blockers.contains(c) implies !on_the_way(a, b, c) by {
            assert(strictly_between(a, b, c) ==> !blockers.contains(c));
        }
    }
}

/// A piece strikes what its attack set holds: from its own square for every kind, and
/// a square is struck by a pawn of one side exactly from where a pawn of the other
/// side would strike it back.
pub proof fn attack_sets_are_what_pieces_strike(
    from: Square,
    to: Square,
    side: Color,
    blockers: Set<Square>,
)
    ensures
        pawn_set(from, side).contains(to) <==> strikes(Piece::Pawn, side, from, to, blockers),
        knight_set(from).contains(to) <==> strikes(Piece::Knight, side, from, to, blockers),
        bishop_set(blockers, from).contains(to) <==> strikes(
            Piece::Bishop,
            side,
            from,
            to,
            blockers,
        ),
        rook_set(blockers, from).contains(to) <==> strikes(Piece::Rook, side, from, to, blockers),
        king_set(from).contains(to) <==> strikes(Piece::King, side, from, to, blockers),
        forall|other: Color|
            other != side ==> (strikes(Piece::Pawn, side, from, to, blockers) <==> #[trigger]
            strikes(Piece::Pawn, other, to, from, blockers)),
        strikes(Piece::Knight, side, from, to, blockers) <==> strikes(
            Piece::Knight,
            side,
            to,
            from,
            blockers,
        ),
        strikes(Piece::King, side, from, to, blockers) <==> strikes(
            Piece::King,
            side,
            to,
            from,
            blockers,
        ),
        strikes(Piece::Bishop, side, from, to, blockers) <==> strikes(
            Piece::Bishop,
            side,
            to,
            from,
            blockers,
        ),
        strikes(Piece::Rook, side, from, to, blockers) <==> strikes(
            Piece::Rook,
            side,
            to,
            from,
            blockers,
        ),
{
    lemma_same_square(from, to);
    lemma_way_free(blockers, from, to);
}

/// For either side, an enemy pawn is among the attackers of a square exactly if it
/// stands on a neighbouring file and one step of its own advance brings it to the
/// square's rank.
pub proof fn pawns_attack_forward(b: BoardModel, color: Color, sq: Square, pawn: Square)
    requires
        b.pieces[Piece::Pawn].contains(pawn),
        !b.pieces[Piece::Knight].contains(pawn),
        !b.pieces[Piece::King].contains(pawn),
    ensures
        b.steppers(color, sq).contains(pawn) <==> {
            let files = sq.file.number() - pawn.file.number();
            let ranks = sq.rank.number() - pawn.rank.number();
            &&& files == 1 || files == -1
            &&& color is Black && b.colors[Color::White].contains(pawn) && ranks == 1 || color
                is White && b.colors[Color::Black].contains(pawn) && ranks == -1
        },
{
    attack_sets_are_what_pieces_strike(sq, pawn, color, Set::empty());
    assert(b.steppers(color, sq).contains(pawn) <==> pawn_set(sq, color).contains(pawn)
        && b.colors[color.opponent()].contains(pawn));
}

/// The attackers of a square are the enemy's pieces that strike it from where they
/// stand: pawns, knights and kings whatever stands in between, the others past it.
pub proof fn attackers_are_the_enemies_that_strike(
    b: BoardModel,
    color: Color,
    sq: Square,
    blockers: Set<Square>,
    a: Square,
)
    ensures
        b.steppers(color, sq).union(b.sliders(color, sq, blockers)).contains(a)
            <==> enemy_strikes(b, color, a, sq, blockers),
        b.steppers(color, sq).contains(a) <==> exists|side: Color| #[trigger]
            b.colors[side].contains(a) && side != color && (b.pieces[Piece::Pawn].contains(a)
                && strikes(Piece::Pawn, side, a, sq, blockers) || b.pieces[Piece::Knight].contains(
                a,
            ) && strikes(Piece::Knight, side, a, sq, blockers) || b.pieces[Piece::King].contains(a)
                && strikes(Piece::King, side, a, sq, blockers)),
        b.sliders(color, sq, blockers).contains(a) <==> exists|side: Color| #[trigger]
            b.colors[side].contains(a) && side != color && (b.pieces[Piece::Bishop].contains(a)
                && strikes(Piece::Bishop, side, a, sq, blockers) || b.pieces[Piece::Rook].contains(
                a,
            ) && strikes(Piece::Rook, side, a, sq, blockers) || b.pieces[Piece::Queen].contains(a)
                && strikes(Piece::Queen, side, a, sq, blockers)),
{
    let enemy = color.opponent();
    assert(forall|side: Color|
        #![trigger b.colors[side]]
        side != color <==> side == enemy);
    attack_sets_are_what_pieces_strike(sq, a, color, blockers);
    attack_sets_are_what_pieces_strike(a, sq, enemy, blockers);
    assert(strikes(Piece::Pawn, color, sq, a, blockers) <==> strikes(
        Piece::Pawn,
        enemy,
        a,
        sq,
        blockers,
    ));
    assert(strikes(Piece::Queen, enemy, a, sq, blockers) <==> strikes(
        Piece::Bishop,
        enemy,
        a,
        sq,
        blockers,
    ) || strikes(Piece::Rook, enemy, a, sq, blockers));
    let on = b.colors[enemy].contains(a);
    assert(b.steppers(color, sq).contains(a) <==> on && (b.pieces[Piece::Pawn].contains(a)
        && strikes(Piece::Pawn, enemy, a, sq, blockers) || b.pieces[Piece::Knight].contains(a)
        && strikes(Piece::Knight, enemy, a, sq, blockers) || b.pieces[Piece::King].contains(a)
        && strikes(Piece::King, enemy, a, sq, blockers)));
    assert(b.sliders(color, sq, blockers).contains(a) <==> on && (b.pieces[Piece::Bishop].contains(
        a,
    ) && strikes(Piece::Bishop, enemy, a, sq, blockers) || b.pieces[Piece::Rook].contains(a)
        && strikes(Piece::Rook, enemy, a, sq, blockers) || b.pieces[Piece::Queen].contains(a)
        && strikes(Piece::Queen, enemy, a, sq, blockers)));
    if on && (b.steppers(color, sq).contains(a) || b.sliders(color, sq, blockers).contains(a)) {
        if b.pieces[Piece::Pawn].contains(a) && strikes(Piece::Pawn, enemy, a, sq, blockers) {
        } else if b.pieces[Piece::Knight].contains(a) && strikes(
            Piece::Knight,
            enemy,
            a,
            sq,
            blockers,
        ) {
        } else if b.pieces[Piece::King].contains(a) && strikes(
            Piece::King,
            enemy,
            a,
            sq,
            blockers,
        ) {
        } else if b.pieces[Piece::Bishop].contains(a) && strikes(
            Piece::Bishop,
            enemy,
            a,
            sq,
            blockers,
        ) {
        } else if b.pieces[Piece::Rook].contains(a) && strikes(
            Piece::Rook,
            enemy,
            a,
            sq,
            blockers,
        ) {
        } else {
            assert(b.pieces[Piece::Queen].contains(a) && strikes(
                Piece::Queen,
                enemy,
                a,
                sq,
                blockers,
            ));
        }
    }
    if enemy_strikes(b, color, a, sq, blockers) {
        let (piece, side) = choose|piece: Piece, side: Color|
            #![trigger b.pieces[piece], b.colors[side]]
            side != color && b.pieces[piece].contains(a) && b.colors[side].contains(a) && strikes(
                piece,
                side,
                a,
                sq,
                blockers,
            );
        assert(side == enemy);
        match piece {
            Piece::Pawn => {},
            Piece::Knight => {},
            Piece::Bishop => {},
            Piece::Rook => {},
            Piece::Queen => {},
            Piece::King => {},
        }
    }
}

/// A king is found exactly if one of its side stands on the board, and there.
pub proof fn the_king_is_where_it_stands(b: BoardModel, color: Color)
    ensures
        match b.king_square(color) {
            Some(sq) => b.pieces[Piece::King].contains(sq) && b.colors[color].contains(sq),
            None => forall|sq: Square|
                !(#[trigger] b.pieces[Piece::King].contains(sq) && b.colors[color].contains(sq)),
        },
        // Of several kings it is the one nearest to the first square.
        forall|sq: Square| #[trigger]
            b.pieces[Piece::King].contains(sq) && b.colors[color].contains(sq)
                ==> b.king_square(color) is Some && b.king_square(color)->0.rank.number() * 8
                + b.king_square(color)->0.file.number() <= sq.rank.number() * 8
                + sq.file.number(),
{
    let kings = b.of(color, Piece::King);
    first_is_lowest(kings, 0);
    assert forall|sq: Square| #[trigger]
        b.pieces[Piece::King].contains(sq) && b.colors[color].contains(sq) implies b.king_square(
        color,
    ) is Some && b.king_square(color)->0.rank.number() * 8 + b.king_square(
        color,
    )->0.file.number() <= sq.rank.number() * 8 + sq.file.number() by {
        assert(kings.contains(sq));
        square_numbers_are_exact(sq, 0);
    }
}

/// While both kings stand, the duck saves a king from a square exactly if with the
/// duck there no enemy piece strikes the king. If the enemy's king is gone, every
/// square will do.
pub proof fn the_duck_saves_a_king_that_nothing_strikes(b: BoardModel, color: Color, duck: Square)
    requires
        b.king_square(color.opponent()) is Some ==> b.king_square(color) is Some,
    ensures
        b.saving_squares(color).contains(duck) <==> b.king_square(color.opponent()) is None || (
        forall|a: Square|
            !#[trigger] enemy_strikes(
                b,
                color,
                a,
                b.king_square(color)->0,
                b.standing().insert(duck),
            )),
{
    if b.king_square(color.opponent()) is Some {
        let king = b.king_square(color)->0;
        let blockers = b.standing().insert(duck);
        saving_squares_save_the_king(b, color, duck);
        let all = b.steppers(color, king).union(b.sliders(color, king, blockers));
        assert forall|a: Square| #[trigger] enemy_strikes(b, color, a, king, blockers)
            <==> all.contains(a) by {
            attackers_are_the_enemies_that_strike(b, color, king, blockers, a);
        }
        if attacked(b, color, king, blockers) {
            let a = choose|a: Square| #[trigger] all.contains(a);
            assert(enemy_strikes(b, color, a, king, blockers));
        } else {
            assert forall|a: Square| !#[trigger] enemy_strikes(b, color, a, king, blockers) by {
                assert(!all.contains(a));
            }
        }
    }
}

/// The side to move is in check exactly if both kings stand and an enemy piece
/// strikes its king past everything on the board, the duck too.
pub proof fn check_is_a_strike_at_the_king(b: BoardModel)
    requires
        b.king_square(b.stm.opponent()) is Some ==> b.king_square(b.stm) is Some,
    ensures
        b.checked() <==> b.king_square(b.stm.opponent()) is Some && exists|a: Square| #[trigger]
            enemy_strikes(b, b.stm, a, b.king_square(b.stm)->0, b.taken()),
        forall|sq: Square| #[trigger]
            b.taken().contains(sq) <==> b.colors[Color::White].contains(sq)
                || b.colors[Color::Black].contains(sq) || b.duck == Some(sq),
{
    if b.king_square(b.stm.opponent()) is Some {
        let king = b.king_square(b.stm)->0;
        check_is_an_attack_on_the_king(b);
        let all = b.steppers(b.stm, king).union(b.sliders(b.stm, king, b.taken()));
        assert forall|a: Square| #[trigger] enemy_strikes(b, b.stm, a, king, b.taken())
            <==> all.contains(a) by {
            attackers_are_the_enemies_that_strike(b, b.stm, king, b.taken(), a);
        }
        if b.checked() {
            let a = choose|a: Square| #[trigger] all.contains(a);
            assert(enemy_strikes(b, b.stm, a, king, b.taken()));
        } else {
            assert forall|a: Square| !#[trigger] enemy_strikes(b, b.stm, a, king, b.taken()) by {
                assert(!all.contains(a));
            }
        }
    }
}

/// The duck cuts off an attacker of a square from exactly the squares on the way
/// between the square and an enemy bishop, rook or queen that strikes it.
pub proof fn the_duck_cuts_off_what_strikes_from_afar(
    b: BoardModel,
    color: Color,
    sq: Square,
    duck: Square,
)
    ensures
        b.cutting_squares(color, sq).contains(duck) <==> exists|a: Square|
            #![trigger on_the_way(a, sq, duck)]
            on_the_way(a, sq, duck) && exists|side: Color| #[trigger]
                b.colors[side].contains(a) && side != color && (b.pieces[Piece::Bishop].contains(a)
                    && strikes(Piece::Bishop, side, a, sq, b.standing())
                    || b.pieces[Piece::Rook].contains(a) && strikes(
                    Piece::Rook,
                    side,
                    a,
                    sq,
                    b.standing(),
                ) || b.pieces[Piece::Queen].contains(a) && strikes(
                    Piece::Queen,
                    side,
                    a,
                    sq,
                    b.standing(),
                )),
{
    assert forall|a: Square|
        #![trigger on_the_way(a, sq, duck)]
        #![trigger b.sliders(color, sq, b.standing()).contains(a)]
        (b.sliders(color, sq, b.standing()).contains(a) <==> exists|side: Color| #[trigger]
            b.colors[side].contains(a) && side != color && (b.pieces[Piece::Bishop].contains(a)
                && strikes(Piece::Bishop, side, a, sq, b.standing())
                || b.pieces[Piece::Rook].contains(a) && strikes(
                Piece::Rook,
                side,
                a,
                sq,
                b.standing(),
            ) || b.pieces[Piece::Queen].contains(a) && strikes(
                Piece::Queen,
                side,
                a,
                sq,
                b.standing(),
            ))) && (between_set(sq, a).contains(duck) <==> on_the_way(a, sq, duck)) by {
        attackers_are_the_enemies_that_strike(b, color, sq, b.standing(), a);
        between_is_on_the_way(sq, a, duck);
    }
}

// En passant.

/// A pawn of the side to move that stands one step short of the capture.
pub open spec fn can_capture_en_passant(b: BoardModel, file: int, from_file: int) -> bool {
    exists|sq: Square| #[trigger]
        b.pieces[Piece::Pawn].contains(sq) && b.colors[b.stm].contains(sq) && sq.file.number()
            == from_file && (b.stm is White && sq.rank.number() == 4 || b.stm is Black
            && sq.rank.number() == 3) && (from_file == file - 1 || from_file == file + 1)
}

/// A double push can be captured exactly if a pawn of the side to move stands beside
/// the pushed pawn and the square behind that one is free. Those pawns stand on the
/// files left and right of it, on the fifth rank as the side to move sees it, and
/// strike the free square.
pub proof fn en_passant_needs_a_pawn_beside(b: BoardModel, file: File)
    ensures
        ({
            let f = file.number() as int;
            let left = can_capture_en_passant(b, f, f - 1);
            let right = can_capture_en_passant(b, f, f + 1);
            let behind = Square {
                file,
                rank: if b.stm is White {
                    Rank::Sixth
                } else {
                    Rank::Third
                },
            };
            &&& b.en_passant_on(file) is Some <==> (left || right) && !b.colors[Color::White].contains(
                behind,
            ) && !b.colors[Color::Black].contains(behind) && b.duck != Some(behind)
            &&& b.en_passant_on(file) matches Some(ep) ==> ep.file == file && ep.left == left
                && ep.right == right
            &&& forall|pawn: Square|
                b.pieces[Piece::Pawn].contains(pawn) && b.colors[b.stm].contains(pawn)
                    && #[trigger] strikes(Piece::Pawn, b.stm, pawn, behind, Set::empty())
                    ==> left || right
        }),
{
    let f = file.number() as int;
    let beside = Rank::Fifth.seen_by(b.stm);
    let left_sq = Square { file: File::at(f - 1), rank: beside };
    let right_sq = Square { file: File::at(f + 1), rank: beside };
    assert(f > 0 ==> left_sq.file.number() == f - 1);
    assert(f < 7 ==> right_sq.file.number() == f + 1);
    if can_capture_en_passant(b, f, f - 1) {
        let sq = choose|sq: Square| #[trigger]
            b.pieces[Piece::Pawn].contains(sq) && b.colors[b.stm].contains(sq)
                && sq.file.number() == f - 1 && (b.stm is White && sq.rank.number() == 4
                || b.stm is Black && sq.rank.number() == 3);
        lemma_same_square(sq, left_sq);
    }
    if can_capture_en_passant(b, f, f + 1) {
        let sq = choose|sq: Square| #[trigger]
            b.pieces[Piece::Pawn].contains(sq) && b.colors[b.stm].contains(sq)
                && sq.file.number() == f + 1 && (b.stm is White && sq.rank.number() == 4
                || b.stm is Black && sq.rank.number() == 3);
        lemma_same_square(sq, right_sq);
    }
    let pawns = b.of(b.stm, Piece::Pawn);
    if f > 0 && pawns.contains(left_sq) {
        assert(b.pieces[Piece::Pawn].contains(left_sq));
    }
    if f < 7 && pawns.contains(right_sq) {
        assert(b.pieces[Piece::Pawn].contains(right_sq));
    }
}

/// After a double push on a file en passant is possible on that file exactly if a pawn
/// of the side to move can capture, and after any other move it is not. Nothing but
/// that and the main key changes.
pub proof fn only_a_double_push_allows_en_passant(b: BoardModel, file: Option<File>)
    ensures
        ({
            let a = b.with_push(file);
            &&& a.en_passant is Some ==> file is Some && a.en_passant->0.file == file->0
            &&& file is Some ==> {
                let f = file->0.number() as int;
                let behind = Square {
                    file: file->0,
                    rank: if b.stm is White {
                        Rank::Sixth
                    } else {
                        Rank::Third
                    },
                };
                a.en_passant is Some <==> (can_capture_en_passant(b, f, f - 1)
                    || can_capture_en_passant(b, f, f + 1)) && !b.taken().contains(behind)
            }
            &&& a == (BoardModel { en_passant: a.en_passant, hash: a.hash, ..b })
        }),
{
    if file is Some {
        en_passant_needs_a_pawn_beside(b, file->0);
    }
}

/// A square has a side exactly if a piece of that side stands on it, where not both
/// sides stand on one square.
pub proof fn a_square_has_the_side_that_stands_there(b: BoardModel, sq: Square, color: Color)
    requires
        !(b.colors[Color::White].contains(sq) && b.colors[Color::Black].contains(sq)),
    ensures
        b.side_on(sq) == Some(color) <==> b.colors[color].contains(sq),
        b.side_on(sq) is None <==> !b.standing().contains(sq),
{
}

// What changes and what stays.

/// Putting a piece on a square, or taking it away, changes that one square for that
/// piece and that side, the main key, and the keys that go with the piece: for a pawn
/// the pawn key alone; for another piece its side's key, and the minor key for
/// knights, bishops and kings, the major key for rooks, queens and kings.
pub proof fn a_toggle_changes_one_square(b: BoardModel, sq: Square, piece: Piece, color: Color)
    requires
        forall|p: Piece| #[trigger] b.pieces.dom().contains(p),
        forall|c: Color| #[trigger] b.colors.dom().contains(c),
    ensures
        ({
            let a = b.with_toggled(sq, piece, color);
            let key = piece_key(sq, piece, color);
            &&& forall|p: Piece, s: Square| #[trigger]
                a.pieces[p].contains(s) <==> (b.pieces[p].contains(s) != (p == piece && s == sq))
            &&& forall|c: Color, s: Square| #[trigger]
                a.colors[c].contains(s) <==> (b.colors[c].contains(s) != (c == color && s == sq))
            &&& a.mailbox == b.mailbox && a.castling == b.castling && a.en_passant == b.en_passant
            &&& a.duck == b.duck && a.stm == b.stm && a.fmc == b.fmc && a.hmc == b.hmc
            &&& a.hash == b.hash ^ key
            &&& piece is Pawn ==> a.pawn_hash == b.pawn_hash ^ key && a.minor_hash == b.minor_hash
                && a.major_hash == b.major_hash && a.white_hash == b.white_hash && a.black_hash
                == b.black_hash
            &&& !(piece is Pawn) ==> a.pawn_hash == b.pawn_hash
            &&& !(piece is Pawn) && color is White ==> a.white_hash == b.white_hash ^ key
                && a.black_hash == b.black_hash
            &&& !(piece is Pawn) && color is Black ==> a.black_hash == b.black_hash ^ key
                && a.white_hash == b.white_hash
            &&& piece is Knight || piece is Bishop ==> a.minor_hash == b.minor_hash ^ key
                && a.major_hash == b.major_hash
            &&& piece is Rook || piece is Queen ==> a.major_hash == b.major_hash ^ key
                && a.minor_hash == b.minor_hash
            &&& piece is King ==> a.minor_hash == b.minor_hash ^ key && a.major_hash
                == b.major_hash ^ key
        }),
{
    lemma_no_change(b.pawn_hash);
    lemma_no_change(b.minor_hash);
    lemma_no_change(b.major_hash);
    lemma_no_change(b.white_hash);
    lemma_no_change(b.black_hash);
    let a = b.with_toggled(sq, piece, color);
    assert forall|p: Piece, s: Square| #[trigger]
        a.pieces[p].contains(s) <==> (b.pieces[p].contains(s) != (p == piece && s == sq)) by {
        assert(b.pieces.dom().contains(p));
    }
    assert forall|c: Color, s: Square| #[trigger]
        a.colors[c].contains(s) <==> (b.colors[c].contains(s) != (c == color && s == sq)) by {
        assert(b.colors.dom().contains(c));
    }
}

proof fn lemma_no_change(a: u64)
    by (bit_vector)
    ensures
        a ^ 0 == a,
{
}

/// Rights, en passant, duck and turn are set one at a time: setting one leaves the
/// pieces, the clocks and the other three as they were, and no key but the main one
/// follows.
pub proof fn the_rest_is_set_one_at_a_time(
    b: BoardModel,
    color: Color,
    dir: CastlingDirection,
    file: Option<File>,
    en_passant: Option<EnPassant>,
    duck: Option<Square>,
)
    requires
        forall|c: Color| #[trigger] b.castling.dom().contains(c),
    ensures
        ({
            let a = b.with_castling(color, dir, file);
            &&& a == (BoardModel { castling: a.castling, hash: a.hash, ..b })
            &&& forall|c: Color| c != color ==> #[trigger] a.castling[c] == b.castling[c]
            &&& dir is Short ==> a.castling[color].short == file && a.castling[color].long
                == b.castling[color].long
            &&& dir is Long ==> a.castling[color].long == file && a.castling[color].short
                == b.castling[color].short
        }),
        ({
            let a = b.with_en_passant(en_passant);
            a == (BoardModel { en_passant, hash: a.hash, ..b })
        }),
        ({
            let a = b.with_duck(duck);
            a == (BoardModel { duck, hash: a.hash, ..b })
        }),
        ({
            let a = b.with_turn_passed();
            a.stm != b.stm && a == (BoardModel { stm: a.stm, hash: a.hash, ..b })
        }),
{
}

// How a game ends.

/// A game is won by the opponent exactly if the side to move has no king; it ends in
/// stalemate, for the side to move, exactly if that side has a king and no legal move;
/// and it is drawn exactly if there are both and fifty moves of each side have passed
/// without progress.
pub proof fn a_game_ends_in_three_ways<R: Rules>(rules: &R, b: BoardModel)
    ensures
        ({
            let alive = exists|sq: Square| #[trigger]
                b.pieces[Piece::King].contains(sq) && b.colors[b.stm].contains(sq);
            let mobile = exists|filter: MoveFilter, i: int|
                0 <= i < rules.moves(b, filter).len() && #[trigger] legal(
                    rules,
                    b,
                    rules.moves(b, filter)[i],
                );
            match b.ending(rules) {
                Some(TerminalState::Victory(winner)) => !alive && winner != b.stm,
                Some(TerminalState::Stalemate(side)) => alive && !mobile && side == b.stm,
                Some(TerminalState::Draw) => alive && mobile && b.hmc >= 100,
                None => alive && mobile && b.hmc < 100,
            }
        }),
{
    the_king_is_where_it_stands(b, b.stm);
    let noisies = rules.moves(b, MoveFilter::Noisy);
    let quiets = rules.moves(b, MoveFilter::Quiet);
    if noisies.len() > 0 {
        assert(noisies.contains(noisies[0]));
        assert(legal(rules, b, rules.moves(b, MoveFilter::Noisy)[0]));
    }
    if quiets.len() > 0 {
        assert(quiets.contains(quiets[0]));
        assert(legal(rules, b, rules.moves(b, MoveFilter::Quiet)[0]));
    }
}

} // verus!
