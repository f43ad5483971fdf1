//! The board and the operations that keep its keys current.

use crate::board::state::{CastlingDirection, CastlingRights, EnPassant};
use crate::board::tables::{pieces_in, rights_in, sets_in, Mailbox, RightsTable, SetTable};
use crate::board::zobrist;
use crate::board::zobrist::{castling_key, duck_key, en_passant_key, piece_key, turn_key};
use crate::common::bitboard::{all_squares, first, squares_of, toggled_set, Bitboard};
use crate::common::geometry::{
    between, between_set, bishop_attacks, bishop_set, file_step, forward, king_attacks, king_set,
    knight_attacks, knight_set, magnitude, pawn_attacks, pawn_set, rank_step, rook_attacks,
    rook_set,
};
use crate::common::types::{square_numbers_are_exact, Color, File, Piece, Rank, Square};
use crate::rules::{has_moves, Rules};
use vstd::prelude::*;

verus! {

/// How a game has ended.
#[derive(Debug, Clone, Copy, PartialEq, Eq, Structural)]
pub enum TerminalState {
    Victory(Color),
    Stalemate(Color),
    Draw,
}

/// A position: the pieces, the duck, the rights, the turn, the two clocks, and
/// the keys that follow from the rest.
#[derive(Clone, Copy)]
pub struct Board {
    pub(crate) pieces: SetTable,
    pub(crate) colors: SetTable,
    pub(crate) mailbox: Mailbox,
    pub(crate) castling_rights: RightsTable,
    pub(crate) en_passant: Option<EnPassant>,
    pub(crate) duck: Option<Square>,
    pub(crate) hash: u64,
    pub(crate) pawn_hash: u64,
    pub(crate) minor_hash: u64,
    pub(crate) major_hash: u64,
    pub(crate) white_hash: u64,
    pub(crate) black_hash: u64,
    pub(crate) stm: Color,
    pub(crate) fmc: u16,
    pub(crate) hmc: u8,
}

/// What a board says, free of how it is stored.
pub struct BoardModel {
    pub pieces: Map<Piece, Set<Square>>,
    pub colors: Map<Color, Set<Square>>,
    pub mailbox: Map<Square, Option<Piece>>,
    pub castling: Map<Color, CastlingRights>,
    pub en_passant: Option<EnPassant>,
    pub duck: Option<Square>,
    pub hash: u64,
    pub pawn_hash: u64,
    pub minor_hash: u64,
    pub major_hash: u64,
    pub white_hash: u64,
    pub black_hash: u64,
    pub stm: Color,
    pub fmc: u16,
    pub hmc: u8,
}

impl View for Board {
    type V = BoardModel;

    closed spec fn view(&self) -> BoardModel {
        BoardModel {
            pieces: Map::new(
                |p: Piece| true,
                |p: Piece| squares_of(sets_in(self.pieces)[p.number()]),
            ),
            colors: Map::new(
                |c: Color| true,
                |c: Color| squares_of(sets_in(self.colors)[c.number()]),
            ),
            mailbox: Map::new(
                |sq: Square| true,
                |sq: Square| pieces_in(self.mailbox)[sq.number() as u8],
            ),
            castling: Map::new(
                |c: Color| true,
                |c: Color| rights_in(self.castling_rights)[c is White],
            ),
            en_passant: self.en_passant,
            duck: self.duck,
            hash: self.hash,
            pawn_hash: self.pawn_hash,
            minor_hash: self.minor_hash,
            major_hash: self.major_hash,
            white_hash: self.white_hash,
            black_hash: self.black_hash,
            stm: self.stm,
            fmc: self.fmc,
            hmc: self.hmc,
        }
    }
}

/// `key` if the condition holds, else the number that changes no key.
pub open spec fn key_if(present: bool, key: u64) -> u64 {
    if present {
        key
    } else {
        0
    }
}

impl BoardModel {
    /// The squares on which a side has a kind of piece.
    pub open spec fn of(self, color: Color, piece: Piece) -> Set<Square> {
        self.pieces[piece].intersect(self.colors[color])
    }

    /// The squares on which pieces stand. The duck is no piece.
    pub open spec fn standing(self) -> Set<Square> {
        self.colors[Color::White].union(self.colors[Color::Black])
    }

    /// The squares that are taken, the duck's among them.
    pub open spec fn taken(self) -> Set<Square> {
        match self.duck {
            Some(sq) => self.standing().insert(sq),
            None => self.standing(),
        }
    }

    pub open spec fn diagonal_movers(self) -> Set<Square> {
        self.pieces[Piece::Bishop].union(self.pieces[Piece::Queen])
    }

    pub open spec fn line_movers(self) -> Set<Square> {
        self.pieces[Piece::Rook].union(self.pieces[Piece::Queen])
    }

    /// The square of a side's king, if the king is still there.
    pub open spec fn king_square(self, color: Color) -> Option<Square> {
        first(self.of(color, Piece::King))
    }

    /// The opponents of `color` that attack `sq` by a step or a jump, which
    /// nothing can block.
    pub open spec fn steppers(self, color: Color, sq: Square) -> Set<Square> {
        let enemy = color.opponent();
        pawn_set(sq, color).intersect(self.of(enemy, Piece::Pawn)).union(
            knight_set(sq).intersect(self.of(enemy, Piece::Knight)),
        ).union(king_set(sq).intersect(self.of(enemy, Piece::King)))
    }

    /// The opponents of `color` that attack `sq` along a path that `blockers`
    /// leave clear.
    pub open spec fn sliders(self, color: Color, sq: Square, blockers: Set<Square>) -> Set<Square> {
        let enemy = color.opponent();
        bishop_set(blockers, sq).intersect(
            self.diagonal_movers().intersect(self.colors[enemy]),
        ).union(rook_set(blockers, sq).intersect(self.line_movers().intersect(self.colors[enemy])))
    }

    /// The squares from which the duck keeps `color`'s king from being captured:
    /// every square if the opponent has no king left; none if a piece attacks by
    /// a step or a jump; else those between the king and each attacker.
    pub open spec fn saving_squares(self, color: Color) -> Set<Square> {
        if self.king_square(color.opponent()) is None {
            all_squares()
        } else {
            let king = self.king_square(color)->0;
            if self.steppers(color, king) != Set::<Square>::empty() {
                Set::empty()
            } else {
                Set::new(
                    |duck: Square|
                        forall|attacker: Square| #[trigger]
                            self.sliders(color, king, self.standing()).contains(attacker)
                                ==> between_set(king, attacker).contains(duck),
                )
            }
        }
    }

    /// The squares from which the duck cuts off an attacker of `sq`.
    pub open spec fn cutting_squares(self, color: Color, sq: Square) -> Set<Square> {
        Set::new(
            |duck: Square|
                exists|attacker: Square| #[trigger]
                    self.sliders(color, sq, self.standing()).contains(attacker) && between_set(
                        sq,
                        attacker,
                    ).contains(duck),
        )
    }

    /// Whether the side to move stands in check.
    pub open spec fn checked(self) -> bool {
        let saving = self.saving_squares(self.stm);
        saving != all_squares() && (self.duck matches Some(sq) ==> !saving.contains(sq))
    }

    /// The en passant capture that a double push on `file` allows: the pawns of
    /// the side to move beside the pushed one can make it if the square behind it
    /// is free.
    pub open spec fn en_passant_on(self, file: File) -> Option<EnPassant> {
        let beside = Rank::Fifth.seen_by(self.stm);
        let behind = Square { file, rank: Rank::Sixth.seen_by(self.stm) };
        let pawns = self.of(self.stm, Piece::Pawn);
        let left = file.number() > 0 && pawns.contains(
            Square { file: File::at(file.number() - 1), rank: beside },
        );
        let right = file.number() < 7 && pawns.contains(
            Square { file: File::at(file.number() + 1), rank: beside },
        );
        if (left || right) && !self.taken().contains(behind) {
            Some(EnPassant { file, left, right })
        } else {
            None
        }
    }

    /// This board after a double push on a file, or after any other move.
    pub open spec fn with_push(self, file: Option<File>) -> BoardModel {
        self.with_en_passant(
            match file {
                Some(f) => self.en_passant_on(f),
                None => None,
            },
        )
    }

    /// The side that has a piece on a square.
    pub open spec fn side_on(self, sq: Square) -> Option<Color> {
        if self.colors[Color::White].contains(sq) {
            Some(Color::White)
        } else if self.colors[Color::Black].contains(sq) {
            Some(Color::Black)
        } else {
            None
        }
    }

    /// How the game has ended, if it has.
    pub open spec fn ending<R: Rules>(self, rules: &R) -> Option<TerminalState> {
        if self.king_square(self.stm) is None {
            Some(TerminalState::Victory(self.stm.opponent()))
        } else if !has_moves(rules, self) {
            Some(TerminalState::Stalemate(self.stm))
        } else if self.hmc >= 100 {
            Some(TerminalState::Draw)
        } else {
            None
        }
    }

    /// This board with a piece put on a square, or taken from it. The mailbox
    /// stays as it is.
    pub open spec fn with_toggled(self, sq: Square, piece: Piece, color: Color) -> BoardModel {
        let key = piece_key(sq, piece, color);
        let minor = piece is Knight || piece is Bishop || piece is King;
        let major = piece is Rook || piece is Queen || piece is King;
        BoardModel {
            pieces: self.pieces.insert(piece, toggled_set(self.pieces[piece], sq)),
            colors: self.colors.insert(color, toggled_set(self.colors[color], sq)),
            hash: self.hash ^ key,
            pawn_hash: self.pawn_hash ^ key_if(piece is Pawn, key),
            minor_hash: self.minor_hash ^ key_if(minor, key),
            major_hash: self.major_hash ^ key_if(major, key),
            white_hash: self.white_hash ^ key_if(!(piece is Pawn) && color is White, key),
            black_hash: self.black_hash ^ key_if(!(piece is Pawn) && color is Black, key),
            ..self
        }
    }

    /// This board with a piece put on a square, the mailbox included.
    pub open spec fn with_put(self, sq: Square, piece: Piece, color: Color) -> BoardModel {
        BoardModel {
            mailbox: self.mailbox.insert(sq, Some(piece)),
            ..self.with_toggled(sq, piece, color)
        }
    }

    pub open spec fn with_castling(
        self,
        color: Color,
        dir: CastlingDirection,
        file: Option<File>,
    ) -> BoardModel {
        let was = self.castling[color].in_direction(dir);
        BoardModel {
            castling: self.castling.insert(color, self.castling[color].with(dir, file)),
            hash: self.hash ^ key_if(was is Some, castling_key(color, was->0)) ^ key_if(
                file is Some,
                castling_key(color, file->0),
            ),
            ..self
        }
    }

    pub open spec fn with_en_passant(self, en_passant: Option<EnPassant>) -> BoardModel {
        BoardModel {
            en_passant,
            hash: self.hash ^ key_if(
                self.en_passant is Some,
                en_passant_key(self.en_passant->0.file),
            ) ^ key_if(en_passant is Some, en_passant_key(en_passant->0.file)),
            ..self
        }
    }

    pub open spec fn with_duck(self, duck: Option<Square>) -> BoardModel {
        BoardModel {
            duck,
            hash: self.hash ^ key_if(self.duck is Some, duck_key(self.duck->0)) ^ key_if(
                duck is Some,
                duck_key(duck->0),
            ),
            ..self
        }
    }

    pub open spec fn with_turn_passed(self) -> BoardModel {
        BoardModel { stm: self.stm.opponent(), hash: self.hash ^ turn_key(), ..self }
    }

    /// The key this board would have without the duck.
    pub open spec fn duckless_key(self) -> u64 {
        self.hash ^ key_if(self.duck is Some, duck_key(self.duck->0))
    }
}

/// A board has a set for every piece and every side, and an entry for every square.
pub proof fn boards_are_total(board: Board)
    ensures
        forall|p: Piece| #[trigger] board@.pieces.dom().contains(p),
        forall|c: Color| #[trigger] board@.colors.dom().contains(c),
        forall|sq: Square| #[trigger] board@.mailbox.dom().contains(sq),
        forall|c: Color| #[trigger] board@.castling.dom().contains(c),
{
}

proof fn lemma_xor_zero(a: u64)
    by (bit_vector)
    ensures
        a ^ 0 == a,
{
}

impl Board {
    /// A board with nothing on it, White to move, all keys zero.
    pub fn empty() -> (r: Board)
        ensures
            r@ == (BoardModel {
                pieces: Map::new(|p: Piece| true, |p: Piece| Set::<Square>::empty()),
                colors: Map::new(|c: Color| true, |c: Color| Set::<Square>::empty()),
                mailbox: Map::new(|sq: Square| true, |sq: Square| None::<Piece>),
                castling: Map::new(
                    |c: Color| true,
                    |c: Color| CastlingRights { short: None, long: None },
                ),
                en_passant: None,
                duck: None,
                hash: 0,
                pawn_hash: 0,
                minor_hash: 0,
                major_hash: 0,
                white_hash: 0,
                black_hash: 0,
                stm: Color::White,
                fmc: 1,
                hmc: 0,
            }),
    {
        let none = CastlingRights::default();
        let r = Board {
            pieces: SetTable::new(),
            colors: SetTable::new(),
            mailbox: Mailbox::new(),
            castling_rights: RightsTable::new(none, none),
            en_passant: None,
            duck: None,
            hash: 0,
            pawn_hash: 0,
            minor_hash: 0,
            major_hash: 0,
            white_hash: 0,
            black_hash: 0,
            stm: Color::White,
            fmc: 1,
            hmc: 0,
        };
        proof {
            assert(squares_of(0) =~= Set::<Square>::empty()) by {
                crate::common::bitboard::zero_has_no_squares();
            }
            assert(r@.pieces =~= Map::new(|p: Piece| true, |p: Piece| Set::<Square>::empty()));
            assert(r@.colors =~= Map::new(|c: Color| true, |c: Color| Set::<Square>::empty()));
            assert(r@.mailbox =~= Map::new(|sq: Square| true, |sq: Square| None::<Piece>));
            assert(r@.castling =~= Map::new(
                |c: Color| true,
                |c: Color| CastlingRights { short: None, long: None },
            ));
        }
        r
    }

    pub fn occupied(&self) -> (r: Bitboard)
        ensures
            r@ == self@.taken(),
    {
        let standing = self.colors(Color::White).union(self.colors(Color::Black));
        match self.duck {
            Some(sq) => {
                let r = standing.union(Bitboard::single(sq));
                assert(r@ =~= self@.taken());
                r
            },
            None => standing,
        }
    }

    pub fn colors(&self, color: Color) -> (r: Bitboard)
        ensures
            r@ == self@.colors[color],
    {
        Bitboard(self.colors.get(color.index()))
    }

    pub fn pieces(&self, piece: Piece) -> (r: Bitboard)
        ensures
            r@ == self@.pieces[piece],
    {
        Bitboard(self.pieces.get(piece.index()))
    }

    pub fn colored_pieces(&self, color: Color, piece: Piece) -> (r: Bitboard)
        ensures
            r@ == self@.of(color, piece),
    {
        self.pieces(piece).intersection(self.colors(color))
    }

    pub fn diag_sliders(&self) -> (r: Bitboard)
        ensures
            r@ == self@.diagonal_movers(),
    {
        self.pieces(Piece::Bishop).union(self.pieces(Piece::Queen))
    }

    pub fn colored_diag_sliders(&self, color: Color) -> (r: Bitboard)
        ensures
            r@ == self@.diagonal_movers().intersect(self@.colors[color]),
    {
        self.diag_sliders().intersection(self.colors(color))
    }

    pub fn orth_sliders(&self) -> (r: Bitboard)
        ensures
            r@ == self@.line_movers(),
    {
        self.pieces(Piece::Rook).union(self.pieces(Piece::Queen))
    }

    pub fn colored_orth_sliders(&self, color: Color) -> (r: Bitboard)
        ensures
            r@ == self@.line_movers().intersect(self@.colors[color]),
    {
        self.orth_sliders().intersection(self.colors(color))
    }

    /// The square of a side's king.
    pub fn king(&self, color: Color) -> (r: Square)
        requires
            self@.king_square(color) is Some,
        ensures
            self@.king_square(color) == Some(r),
    {
        self.colored_pieces(color, Piece::King).next()
    }

    /// The square of a side's king, if the king is still there.
    pub fn try_king(&self, color: Color) -> (r: Option<Square>)
        ensures
            r == self@.king_square(color),
    {
        self.colored_pieces(color, Piece::King).try_next()
    }

    pub fn castling_rights(&self, color: Color) -> (r: CastlingRights)
        ensures
            r == self@.castling[color],
    {
        self.castling_rights.get(color.is_white())
    }

    pub fn piece_on(&self, sq: Square) -> (r: Option<Piece>)
        ensures
            r == self@.mailbox[sq],
    {
        self.mailbox.get(sq.index() as u8)
    }

    pub fn color_on(&self, sq: Square) -> (r: Option<Color>)
        ensures
            r == (if self@.colors[Color::White].contains(sq) {
                Some(Color::White)
            } else if self@.colors[Color::Black].contains(sq) {
                Some(Color::Black)
            } else {
                None
            }),
            r == self@.side_on(sq),
    {
        if self.colors(Color::White).has(sq) {
            Some(Color::White)
        } else if self.colors(Color::Black).has(sq) {
            Some(Color::Black)
        } else {
            None
        }
    }

    pub fn en_passant(&self) -> (r: Option<EnPassant>)
        ensures
            r == self@.en_passant,
    {
        self.en_passant
    }

    pub fn hash(&self) -> (r: u64)
        ensures
            r == self@.hash,
    {
        self.hash
    }

    pub fn pawn_hash(&self) -> (r: u64)
        ensures
            r == self@.pawn_hash,
    {
        self.pawn_hash
    }

    pub fn minor_hash(&self) -> (r: u64)
        ensures
            r == self@.minor_hash,
    {
        self.minor_hash
    }

    pub fn major_hash(&self) -> (r: u64)
        ensures
            r == self@.major_hash,
    {
        self.major_hash
    }

    pub fn white_hash(&self) -> (r: u64)
        ensures
            r == self@.white_hash,
    {
        self.white_hash
    }

    pub fn black_hash(&self) -> (r: u64)
        ensures
            r == self@.black_hash,
    {
        self.black_hash
    }

    /// The key this board would have without the duck.
    pub fn duckless_hash(&self) -> (r: u64)
        ensures
            r == self@.duckless_key(),
    {
        self.hash ^ match self.duck {
            Some(sq) => zobrist::duck(sq),
            None => 0,
        }
    }

    pub fn duck(&self) -> (r: Option<Square>)
        ensures
            r == self@.duck,
    {
        self.duck
    }

    pub fn stm(&self) -> (r: Color)
        ensures
            r == self@.stm,
    {
        self.stm
    }

    pub fn fmc(&self) -> (r: u16)
        ensures
            r == self@.fmc,
    {
        self.fmc
    }

    pub fn hmc(&self) -> (r: u8)
        ensures
            r == self@.hmc,
    {
        self.hmc
    }

    /// Whether the side to move stands in check.
    pub fn in_check(&self) -> (r: bool)
        requires
            self@.king_square(self@.stm.opponent()) is Some ==> self@.king_square(
                self@.stm,
            ) is Some,
        ensures
            r == self@.checked(),
    {
        let blocks = self.king_capture_blocks(self.stm);
        !blocks.is_full() && match self.duck {
            Some(sq) => !blocks.has(sq),
            None => true,
        }
    }

    /// The opponents of `color` that attack `sq` along paths that pieces leave clear.
    fn slider_attackers(&self, color: Color, sq: Square) -> (r: Bitboard)
        ensures
            r@ == self@.sliders(color, sq, self@.standing()),
    {
        let blockers = self.colors(color).union(self.colors(color.flip()));
        assert(blockers@ =~= self@.standing());
        bishop_attacks(blockers, sq).intersection(self.colored_diag_sliders(color.flip())).union(
            rook_attacks(blockers, sq).intersection(self.colored_orth_sliders(color.flip())),
        )
    }

    /// The squares from which the duck keeps `color`'s king from being captured.
    pub fn king_capture_blocks(&self, color: Color) -> (r: Bitboard)
        requires
            self@.king_square(color.opponent()) is Some ==> self@.king_square(color) is Some,
        ensures
            r@ == self@.saving_squares(color),
    {
        if self.try_king(color.flip()).is_none() {
            return Bitboard::full();
        }
        let king = self.king(color);
        let unblockable = pawn_attacks(king, color).intersection(
            self.colored_pieces(color.flip(), Piece::Pawn),
        ).union(
            knight_attacks(king).intersection(self.colored_pieces(color.flip(), Piece::Knight)),
        ).union(king_attacks(king).intersection(self.colored_pieces(color.flip(), Piece::King)));
        if unblockable.is_nonempty() {
            return Bitboard::empty();
        }
        let sliders = self.slider_attackers(color, king);
        let mut safe = Bitboard::full();
        let mut i: usize = 0;
        while i < 64
            invariant
                i <= 64,
                forall|duck: Square| #[trigger]
                    safe@.contains(duck) <==> (forall|attacker: Square| #[trigger]
                        sliders@.contains(attacker) && attacker.number() < i ==> between_set(
                            king,
                            attacker,
                        ).contains(duck)),
            decreases 64 - i,
        {
            let attacker = Square::from_index(i);
            let ghost before = safe@;
            if sliders.has(attacker) {
                safe = safe.intersection(between(king, attacker));
            }
            proof {
                square_numbers_are_exact(attacker, i as int);
                assert forall|duck: Square| #[trigger]
                    safe@.contains(duck) <==> (forall|other: Square| #[trigger]
                        sliders@.contains(other) && other.number() < i + 1 ==> between_set(
                            king,
                            other,
                        ).contains(duck)) by {
                    assert(before.contains(duck) <==> (forall|other: Square| #[trigger]
                        sliders@.contains(other) && other.number() < i ==> between_set(
                            king,
                            other,
                        ).contains(duck)));
                    assert forall|other: Square| #[trigger]
                        sliders@.contains(other) && other.number() == i implies other
                        == attacker by {
                        square_numbers_are_exact(other, i as int);
                    }
                    if safe@.contains(duck) {
                        assert(before.contains(duck));
                    } else if before.contains(duck) {
                        assert(sliders@.contains(attacker));
                    }
                }
            }
            i += 1;
        }
        proof {
            assert forall|duck: Square| #[trigger]
                safe@.contains(duck) <==> self@.saving_squares(color).contains(duck) by {
                if safe@.contains(duck) {
                    assert forall|attacker: Square| #[trigger]
                        sliders@.contains(attacker) implies between_set(king, attacker).contains(
                        duck,
                    ) by {
                        square_numbers_are_exact(attacker, 0);
                    }
                }
            }
            assert(safe@ =~= self@.saving_squares(color));
        }
        safe
    }

    /// The squares from which the duck cuts off an attacker of `sq`.
    pub fn slider_blocking_set(&self, color: Color, sq: Square) -> (r: Bitboard)
        ensures
            r@ == self@.cutting_squares(color, sq),
    {
        let sliders = self.slider_attackers(color, sq);
        let mut safe = Bitboard::empty();
        let mut i: usize = 0;
        while i < 64
            invariant
                i <= 64,
                forall|duck: Square| #[trigger]
                    safe@.contains(duck) <==> (exists|attacker: Square| #[trigger]
                        sliders@.contains(attacker) && attacker.number() < i && between_set(
                            sq,
                            attacker,
                        ).contains(duck)),
            decreases 64 - i,
        {
            let attacker = Square::from_index(i);
            let ghost before = safe@;
            if sliders.has(attacker) {
                safe = safe.union(between(sq, attacker));
            }
            proof {
                square_numbers_are_exact(attacker, i as int);
                assert forall|duck: Square| #[trigger]
                    safe@.contains(duck) <==> (exists|other: Square| #[trigger]
                        sliders@.contains(other) && other.number() < i + 1 && between_set(
                            sq,
                            other,
                        ).contains(duck)) by {
                    assert(before.contains(duck) <==> (exists|other: Square| #[trigger]
                        sliders@.contains(other) && other.number() < i && between_set(
                            sq,
                            other,
                        ).contains(duck)));
                    if exists|other: Square| #[trigger]
                        sliders@.contains(other) && other.number() < i + 1 && between_set(
                            sq,
                            other,
                        ).contains(duck) {
                        let other = choose|other: Square| #[trigger]
                            sliders@.contains(other) && other.number() < i + 1 && between_set(
                                sq,
                                other,
                            ).contains(duck);
                        square_numbers_are_exact(other, i as int);
                        if other.number() < i {
                            assert(before.contains(duck));
                        }
                    }
                    if safe@.contains(duck) && !before.contains(duck) {
                        assert(sliders@.contains(attacker));
                    }
                }
            }
            i += 1;
        }
        proof {
            assert forall|duck: Square| #[trigger]
                safe@.contains(duck) <==> self@.cutting_squares(color, sq).contains(duck) by {
                if self@.cutting_squares(color, sq).contains(duck) {
                    let attacker = choose|attacker: Square| #[trigger]
                        self@.sliders(color, sq, self@.standing()).contains(attacker)
                            && between_set(sq, attacker).contains(duck);
                    square_numbers_are_exact(attacker, 0);
                    assert(sliders@.contains(attacker));
                }
            }
            assert(safe@ =~= self@.cutting_squares(color, sq));
        }
        safe
    }

    /// How the game has ended, if it has. The side that lost its king has lost;
    /// a side without a legal move is stalemated; a hundred moves without progress
    /// are a draw.
    pub fn terminal_state<R: Rules>(&self, rules: &R) -> (r: Option<TerminalState>)
        ensures
            r == (if self@.king_square(self@.stm) is None {
                Some(TerminalState::Victory(self@.stm.opponent()))
            } else if !has_moves(rules, self@) {
                Some(TerminalState::Stalemate(self@.stm))
            } else if self@.hmc >= 100 {
                Some(TerminalState::Draw)
            } else {
                None
            }),
            r == self@.ending(rules),
    {
        if self.try_king(self.stm).is_none() {
            return Some(TerminalState::Victory(self.stm.flip()));
        }
        if rules.any_moves(self) {
            if self.hmc >= 100 {
                Some(TerminalState::Draw)
            } else {
                None
            }
        } else {
            Some(TerminalState::Stalemate(self.stm))
        }
    }

    /// Sets the en passant capture that a double push on `file` allows, or none.
    pub fn calc_en_passant(&mut self, file: Option<File>)
        ensures
            final(self)@ == old(self)@.with_en_passant(
                match file {
                    Some(f) => old(self)@.en_passant_on(f),
                    None => None,
                },
            ),
            final(self)@ == old(self)@.with_push(file),
    {
        let file = match file {
            Some(f) => f,
            None => {
                self.set_en_passant(None);
                return;
            },
        };
        let victim = Square::new(file, Rank::Fifth.relative_to(self.stm));
        let attacker_dest = Square::new(file, Rank::Sixth.relative_to(self.stm));
        let our_pawns = self.colored_pieces(self.stm, Piece::Pawn);
        let attackers = our_pawns.intersection(pawn_attacks(attacker_dest, self.stm.flip()));
        let ghost beside = Rank::Fifth.seen_by(self.stm);
        let ghost left_sq = Square { file: File::at(file.number() - 1), rank: beside };
        let ghost right_sq = Square { file: File::at(file.number() + 1), rank: beside };
        proof {
            assert forall|sq: Square| #[trigger] attackers@.contains(sq) implies (sq == left_sq
                && file.number() > 0) || (sq == right_sq && file.number() < 7) by {
                assert(magnitude(file_step(attacker_dest, sq)) == 1);
                assert(rank_step(attacker_dest, sq) == forward(self.stm.opponent()));
                assert(sq.rank == beside);
            }
            if file.number() > 0 {
                assert(attackers@.contains(left_sq) <==> our_pawns@.contains(left_sq));
            }
            if file.number() < 7 {
                assert(attackers@.contains(right_sq) <==> our_pawns@.contains(right_sq));
            }
        }
        if attackers.is_empty() || self.occupied().has(attacker_dest) {
            self.set_en_passant(None);
            return;
        }
        let mut left: bool = false;
        let mut right: bool = false;
        let mut i: usize = 0;
        while i < 64
            invariant
                i <= 64,
                victim.file == file,
                left <==> exists|sq: Square| #[trigger]
                    attackers@.contains(sq) && sq.number() < i && sq.file.number() < file.number(),
                right <==> exists|sq: Square| #[trigger]
                    attackers@.contains(sq) && sq.number() < i && sq.file.number() >= file.number(),
            decreases 64 - i,
        {
            let attacker = Square::from_index(i);
            proof {
                assert forall|sq: Square| #[trigger]
                    attackers@.contains(sq) && sq.number() < i + 1 implies sq.number() < i || sq
                    == attacker by {
                    square_numbers_are_exact(sq, i as int);
                }
            }
            if attackers.has(attacker) {
                if attacker.file().index() < victim.file().index() {
                    left = true;
                } else {
                    right = true;
                }
            }
            i += 1;
        }
        proof {
            square_numbers_are_exact(left_sq, 0);
            square_numbers_are_exact(right_sq, 0);
            assert(left <==> file.number() > 0 && our_pawns@.contains(left_sq));
            assert(right <==> file.number() < 7 && our_pawns@.contains(right_sq));
            if !left && !right {
                assert(attackers@ =~= Set::<Square>::empty());
            }
        }
        self.set_en_passant(
            if left || right {
                Some(EnPassant::new(file, left, right))
            } else {
                None
            },
        );
    }

    /// Puts a piece on a square, or takes it from there, and brings the keys up
    /// to date. The mailbox stays as it is.
    pub fn toggle_square(&mut self, sq: Square, piece: Piece, color: Color)
        ensures
            final(self)@ == old(self)@.with_toggled(sq, piece, color),
    {
        let piece_set = self.pieces(piece).toggled(sq);
        let color_set = self.colors(color).toggled(sq);
        self.pieces.set(piece.index(), piece_set.0);
        self.colors.set(color.index(), color_set.0);
        let value = zobrist::piece(sq, piece, color);
        self.hash = self.hash ^ value;
        match piece {
            Piece::Pawn => self.pawn_hash = self.pawn_hash ^ value,
            Piece::Knight => self.minor_hash = self.minor_hash ^ value,
            Piece::Bishop => self.minor_hash = self.minor_hash ^ value,
            Piece::Rook => self.major_hash = self.major_hash ^ value,
            Piece::Queen => self.major_hash = self.major_hash ^ value,
            Piece::King => {
                self.minor_hash = self.minor_hash ^ value;
                self.major_hash = self.major_hash ^ value;
            },
        }
        if piece != Piece::Pawn {
            match color {
                Color::White => self.white_hash = self.white_hash ^ value,
                Color::Black => self.black_hash = self.black_hash ^ value,
            }
        }
        proof {
            lemma_xor_zero(old(self).pawn_hash);
            lemma_xor_zero(old(self).minor_hash);
            lemma_xor_zero(old(self).major_hash);
            lemma_xor_zero(old(self).white_hash);
            lemma_xor_zero(old(self).black_hash);
            assert(self@.pieces =~= old(self)@.with_toggled(sq, piece, color).pieces);
            assert(self@.colors =~= old(self)@.with_toggled(sq, piece, color).colors);
        }
    }

    /// Puts a piece on a free square and enters it in the mailbox.
    pub fn put(&mut self, sq: Square, piece: Piece, color: Color)
        requires
            !old(self)@.standing().contains(sq),
        ensures
            final(self)@ == old(self)@.with_put(sq, piece, color),
    {
        self.toggle_square(sq, piece, color);
        self.mailbox.set(sq.index() as u8, Some(piece));
        proof {
            assert forall|other: Square| other != sq implies (#[trigger] other.number()) as u8
                != sq.number() as u8 by {
                square_numbers_are_exact(other, sq.number());
                square_numbers_are_exact(sq, sq.number());
            }
            assert(self@.mailbox =~= old(self)@.mailbox.insert(sq, Some(piece)));
        }
    }

    /// Sets the number of the move and the count of moves without progress.
    pub fn set_clocks(&mut self, fmc: u16, hmc: u8)
        ensures
            final(self)@ == (BoardModel { fmc, hmc, ..old(self)@ }),
    {
        self.fmc = fmc;
        self.hmc = hmc;
    }

    /// Changes a right to castle.
    pub fn set_castling_rights(
        &mut self,
        color: Color,
        dir: CastlingDirection,
        file: Option<File>,
    )
        ensures
            final(self)@ == old(self)@.with_castling(color, dir, file),
    {
        let mut rights = self.castling_rights(color);
        if let Some(was) = rights.get(dir) {
            self.hash = self.hash ^ zobrist::castling_rights(color, was);
        }
        proof {
            lemma_xor_zero(old(self).hash);
            lemma_xor_zero(self.hash);
        }
        if let Some(now) = file {
            self.hash = self.hash ^ zobrist::castling_rights(color, now);
        }
        rights.set(dir, file);
        self.castling_rights.set(color.is_white(), rights);
        proof {
            assert(self@.castling =~= old(self)@.with_castling(color, dir, file).castling);
        }
    }

    /// Changes the en passant capture.
    pub fn set_en_passant(&mut self, en_passant: Option<EnPassant>)
        ensures
            final(self)@ == old(self)@.with_en_passant(en_passant),
    {
        if let Some(prev) = self.en_passant {
            self.hash = self.hash ^ zobrist::en_passant(prev.file());
        }
        self.en_passant = en_passant;
        proof {
            lemma_xor_zero(old(self).hash);
            lemma_xor_zero(self.hash);
        }
        if let Some(ep) = en_passant {
            self.hash = self.hash ^ zobrist::en_passant(ep.file());
        }
    }

    /// Puts the duck on a square, or takes it off the board.
    pub fn set_duck(&mut self, duck: Option<Square>)
        ensures
            final(self)@ == old(self)@.with_duck(duck),
    {
        if let Some(prev) = self.duck {
            self.hash = self.hash ^ zobrist::duck(prev);
        }
        self.duck = duck;
        proof {
            lemma_xor_zero(old(self).hash);
            lemma_xor_zero(self.hash);
        }
        if let Some(sq) = duck {
            self.hash = self.hash ^ zobrist::duck(sq);
        }
    }

    /// Gives the turn to the other side.
    pub fn toggle_stm(&mut self)
        ensures
            final(self)@ == old(self)@.with_turn_passed(),
    {
        self.stm = self.stm.flip();
        self.hash = self.hash ^ zobrist::stm();
    }
}

} // verus!
