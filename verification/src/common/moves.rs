//! Moves: a piece goes from one square to another, then the duck is placed.

use crate::common::types::{Piece, Square};
use vstd::prelude::*;

verus! {

#[derive(Debug, Clone, Copy, PartialEq, Eq, Structural)]
pub enum MoveFlag {
    Normal,
    DoublePush,
    ShortCastling,
    LongCastling,
    Capture,
    EnPassant,
    KnightPromotion,
    BishopPromotion,
    RookPromotion,
    QueenPromotion,
    KnightCapturePromotion,
    BishopCapturePromotion,
    RookCapturePromotion,
    QueenCapturePromotion,
}

impl MoveFlag {
    /// Takes the piece that stands on the destination. An en passant capture
    /// does not: its victim stands elsewhere.
    pub open spec fn takes(self) -> bool {
        self is Capture || self is KnightCapturePromotion || self is BishopCapturePromotion
            || self is RookCapturePromotion || self is QueenCapturePromotion
    }

    pub open spec fn promotes_to(self) -> Option<Piece> {
        match self {
            MoveFlag::KnightPromotion | MoveFlag::KnightCapturePromotion => Some(Piece::Knight),
            MoveFlag::BishopPromotion | MoveFlag::BishopCapturePromotion => Some(Piece::Bishop),
            MoveFlag::RookPromotion | MoveFlag::RookCapturePromotion => Some(Piece::Rook),
            MoveFlag::QueenPromotion | MoveFlag::QueenCapturePromotion => Some(Piece::Queen),
            _ => None,
        }
    }

    /// Changes the material on the board.
    pub open spec fn noisy(self) -> bool {
        self.takes() || self is EnPassant || self.promotes_to() is Some
    }

    pub fn is_capture(self) -> (r: bool)
        ensures
            r == self.takes(),
    {
        match self {
            MoveFlag::Capture
            | MoveFlag::KnightCapturePromotion
            | MoveFlag::BishopCapturePromotion
            | MoveFlag::RookCapturePromotion
            | MoveFlag::QueenCapturePromotion => true,
            _ => false,
        }
    }

    pub fn is_en_passant(self) -> (r: bool)
        ensures
            r == (self is EnPassant),
    {
        match self {
            MoveFlag::EnPassant => true,
            _ => false,
        }
    }

    pub fn promotion(self) -> (r: Option<Piece>)
        ensures
            r == self.promotes_to(),
    {
        match self {
            MoveFlag::KnightPromotion | MoveFlag::KnightCapturePromotion => Some(Piece::Knight),
            MoveFlag::BishopPromotion | MoveFlag::BishopCapturePromotion => Some(Piece::Bishop),
            MoveFlag::RookPromotion | MoveFlag::RookCapturePromotion => Some(Piece::Rook),
            MoveFlag::QueenPromotion | MoveFlag::QueenCapturePromotion => Some(Piece::Queen),
            _ => None,
        }
    }

    pub fn is_noisy(self) -> (r: bool)
        ensures
            r == self.noisy(),
    {
        self.is_capture() || self.is_en_passant() || self.promotion().is_some()
    }

    pub fn is_quiet(self) -> (r: bool)
        ensures
            r == !self.noisy(),
    {
        !self.is_noisy()
    }
}

/// A piece move with the square on which the duck is put afterwards.
#[derive(Debug, Clone, Copy, PartialEq, Eq, Structural)]
pub struct Move {
    pub src: Square,
    pub dest: Square,
    pub duck: Square,
    pub flag: MoveFlag,
}

impl Move {
    pub fn new(src: Square, dest: Square, duck: Square, flag: MoveFlag) -> (r: Move)
        ensures
            r == (Move { src, dest, duck, flag }),
    {
        Move { src, dest, duck, flag }
    }

    pub fn src(self) -> (r: Square)
        ensures
            r == self.src,
    {
        self.src
    }

    pub fn dest(self) -> (r: Square)
        ensures
            r == self.dest,
    {
        self.dest
    }

    pub fn duck(self) -> (r: Square)
        ensures
            r == self.duck,
    {
        self.duck
    }

    pub fn flag(self) -> (r: MoveFlag)
        ensures
            r == self.flag,
    {
        self.flag
    }
}

} // verus!
