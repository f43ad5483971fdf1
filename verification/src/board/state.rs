//! The parts of a position that are not pieces.

use crate::common::types::File;
use vstd::prelude::*;

verus! {

#[derive(Debug, Clone, Copy, PartialEq, Eq, Structural)]
pub enum CastlingDirection {
    Short,
    Long,
}

/// One side's rights to castle, each with the file of the rook it castles with.
#[derive(Debug, Clone, Copy, PartialEq, Eq, Structural)]
pub struct CastlingRights {
    pub short: Option<File>,
    pub long: Option<File>,
}

impl CastlingRights {
    pub open spec fn in_direction(self, dir: CastlingDirection) -> Option<File> {
        match dir {
            CastlingDirection::Short => self.short,
            CastlingDirection::Long => self.long,
        }
    }

    pub open spec fn with(self, dir: CastlingDirection, file: Option<File>) -> CastlingRights {
        match dir {
            CastlingDirection::Short => CastlingRights { short: file, ..self },
            CastlingDirection::Long => CastlingRights { long: file, ..self },
        }
    }

    pub fn get(self, dir: CastlingDirection) -> (r: Option<File>)
        ensures
            r == self.in_direction(dir),
    {
        match dir {
            CastlingDirection::Short => self.short,
            CastlingDirection::Long => self.long,
        }
    }

    pub fn set(&mut self, dir: CastlingDirection, file: Option<File>)
        ensures
            *final(self) == old(self).with(dir, file),
    {
        match dir {
            CastlingDirection::Short => self.short = file,
            CastlingDirection::Long => self.long = file,
        }
    }
}

impl Default for CastlingRights {
    fn default() -> (r: CastlingRights)
        ensures
            r == (CastlingRights { short: None, long: None }),
    {
        CastlingRights { short: None, long: None }
    }
}

/// An en passant capture: the file of its victim, and on which sides of the
/// victim a pawn can make it.
#[derive(Debug, Clone, Copy, PartialEq, Eq, Structural)]
pub struct EnPassant {
    pub file: File,
    pub left: bool,
    pub right: bool,
}

impl EnPassant {
    pub fn new(file: File, left: bool, right: bool) -> (r: EnPassant)
        ensures
            r == (EnPassant { file, left, right }),
    {
        EnPassant { file, left, right }
    }

    pub fn file(self) -> (r: File)
        ensures
            r == self.file,
    {
        self.file
    }
}

} // verus!
