//! The small enumerations the board is made of.

use vstd::prelude::*;

verus! {

#[derive(Debug, Clone, Copy, PartialEq, Eq, Structural)]
pub enum Color {
    White,
    Black,
}

impl Color {
    pub open spec fn opponent(self) -> Color {
        match self {
            Color::White => Color::Black,
            Color::Black => Color::White,
        }
    }

    /// The other side.
    pub fn flip(self) -> (r: Color)
        ensures
            r == self.opponent(),
    {
        match self {
            Color::White => Color::Black,
            Color::Black => Color::White,
        }
    }

    pub open spec fn number(self) -> u8 {
        match self {
            Color::White => 0,
            Color::Black => 1,
        }
    }

    /// The key of this color in a table indexed by color.
    pub fn index(self) -> (r: u8)
        ensures
            r == self.number(),
            r < 2,
    {
        match self {
            Color::White => 0,
            Color::Black => 1,
        }
    }

    /// Whether this is White.
    pub fn is_white(self) -> (r: bool)
        ensures
            r == (self is White),
    {
        match self {
            Color::White => true,
            Color::Black => false,
        }
    }
}

#[derive(Debug, Clone, Copy, PartialEq, Eq, Structural)]
pub enum Piece {
    Pawn,
    Knight,
    Bishop,
    Rook,
    Queen,
    King,
}

impl Piece {
    pub open spec fn number(self) -> u8 {
        match self {
            Piece::Pawn => 0,
            Piece::Knight => 1,
            Piece::Bishop => 2,
            Piece::Rook => 3,
            Piece::Queen => 4,
            Piece::King => 5,
        }
    }

    /// The key of this piece in a table indexed by piece.
    pub fn index(self) -> (r: u8)
        ensures
            r == self.number(),
            r < 6,
    {
        match self {
            Piece::Pawn => 0,
            Piece::Knight => 1,
            Piece::Bishop => 2,
            Piece::Rook => 3,
            Piece::Queen => 4,
            Piece::King => 5,
        }
    }
}

#[derive(Debug, Clone, Copy, PartialEq, Eq, Structural)]
pub enum File {
    A,
    B,
    C,
    D,
    E,
    F,
    G,
    H,
}

impl File {
    pub open spec fn number(self) -> u8 {
        match self {
            File::A => 0,
            File::B => 1,
            File::C => 2,
            File::D => 3,
            File::E => 4,
            File::F => 5,
            File::G => 6,
            File::H => 7,
        }
    }

    pub open spec fn at(i: int) -> File {
        if i == 0 {
            File::A
        } else if i == 1 {
            File::B
        } else if i == 2 {
            File::C
        } else if i == 3 {
            File::D
        } else if i == 4 {
            File::E
        } else if i == 5 {
            File::F
        } else if i == 6 {
            File::G
        } else {
            File::H
        }
    }

    /// Counts files from the queen's side: A is 0, H is 7.
    pub fn index(self) -> (r: u8)
        ensures
            r == self.number(),
            r < 8,
    {
        match self {
            File::A => 0,
            File::B => 1,
            File::C => 2,
            File::D => 3,
            File::E => 4,
            File::F => 5,
            File::G => 6,
            File::H => 7,
        }
    }

    /// The file with the given number.
    pub fn from_index(i: u8) -> (r: File)
        requires
            i < 8,
        ensures
            r == File::at(i as int),
            r.number() == i,
    {
        match i {
            0 => File::A,
            1 => File::B,
            2 => File::C,
            3 => File::D,
            4 => File::E,
            5 => File::F,
            6 => File::G,
            _ => File::H,
        }
    }
}

#[derive(Debug, Clone, Copy, PartialEq, Eq, Structural)]
pub enum Rank {
    First,
    Second,
    Third,
    Fourth,
    Fifth,
    Sixth,
    Seventh,
    Eighth,
}

impl Rank {
    pub open spec fn number(self) -> u8 {
        match self {
            Rank::First => 0,
            Rank::Second => 1,
            Rank::Third => 2,
            Rank::Fourth => 3,
            Rank::Fifth => 4,
            Rank::Sixth => 5,
            Rank::Seventh => 6,
            Rank::Eighth => 7,
        }
    }

    pub open spec fn at(i: int) -> Rank {
        if i == 0 {
            Rank::First
        } else if i == 1 {
            Rank::Second
        } else if i == 2 {
            Rank::Third
        } else if i == 3 {
            Rank::Fourth
        } else if i == 4 {
            Rank::Fifth
        } else if i == 5 {
            Rank::Sixth
        } else if i == 6 {
            Rank::Seventh
        } else {
            Rank::Eighth
        }
    }

    /// Counts ranks from White's side: the first is 0, the eighth is 7.
    pub fn index(self) -> (r: u8)
        ensures
            r == self.number(),
            r < 8,
    {
        match self {
            Rank::First => 0,
            Rank::Second => 1,
            Rank::Third => 2,
            Rank::Fourth => 3,
            Rank::Fifth => 4,
            Rank::Sixth => 5,
            Rank::Seventh => 6,
            Rank::Eighth => 7,
        }
    }

    /// The rank with the given number.
    pub fn from_index(i: u8) -> (r: Rank)
        requires
            i < 8,
        ensures
            r == Rank::at(i as int),
            r.number() == i,
    {
        match i {
            0 => Rank::First,
            1 => Rank::Second,
            2 => Rank::Third,
            3 => Rank::Fourth,
            4 => Rank::Fifth,
            5 => Rank::Sixth,
            6 => Rank::Seventh,
            _ => Rank::Eighth,
        }
    }

    pub open spec fn seen_by(self, color: Color) -> Rank {
        match color {
            Color::White => self,
            Color::Black => Rank::at(7 - self.number()),
        }
    }

    /// The same rank counted from the given side.
    pub fn relative_to(self, color: Color) -> (r: Rank)
        ensures
            r == self.seen_by(color),
    {
        match color {
            Color::White => self,
            Color::Black => Rank::from_index(7 - self.index()),
        }
    }
}

/// One of the 64 squares, named by its file and its rank.
#[derive(Debug, Clone, Copy, PartialEq, Eq, Structural)]
pub struct Square {
    pub file: File,
    pub rank: Rank,
}

impl Square {
    pub const COUNT: usize = 64;

    pub open spec fn number(self) -> int {
        self.rank.number() * 8 + self.file.number()
    }

    pub open spec fn at(i: int) -> Square {
        Square { file: File::at(i % 8), rank: Rank::at(i / 8) }
    }

    pub fn new(file: File, rank: Rank) -> (r: Square)
        ensures
            r == (Square { file, rank }),
    {
        Square { file, rank }
    }

    pub fn file(self) -> (r: File)
        ensures
            r == self.file,
    {
        self.file
    }

    pub fn rank(self) -> (r: Rank)
        ensures
            r == self.rank,
    {
        self.rank
    }

    /// Counts squares rank by rank from A1 (0) to H8 (63).
    pub fn index(self) -> (r: usize)
        ensures
            r == self.number(),
            r < 64,
    {
        (self.rank.index() * 8 + self.file.index()) as usize
    }

    /// The square with the given number.
    pub fn from_index(i: usize) -> (r: Square)
        requires
            i < 64,
        ensures
            r == Square::at(i as int),
            r.number() == i,
    {
        Square { file: File::from_index((i % 8) as u8), rank: Rank::from_index((i / 8) as u8) }
    }
}

/// Numbering the squares is one to one between squares and the numbers below 64.
pub proof fn square_numbers_are_exact(sq: Square, i: int)
    ensures
        0 <= sq.number() < 64,
        Square::at(sq.number()) == sq,
        0 <= i < 64 ==> Square::at(i).number() == i,
{
    let f = sq.file.number() as int;
    let r = sq.rank.number() as int;
    assert((r * 8 + f) % 8 == f && (r * 8 + f) / 8 == r);
}

/// Files are counted from the a-file, ranks from White's side, squares rank by rank,
/// and as Black sees them ranks are counted from the other side. Each side is the
/// other's opponent.
pub proof fn how_the_board_is_counted(sq: Square, other: Square, rank: Rank, color: Color)
    ensures
        File::A.number() == 0 && File::B.number() == 1 && File::C.number() == 2,
        File::D.number() == 3 && File::E.number() == 4 && File::F.number() == 5,
        File::G.number() == 6 && File::H.number() == 7,
        Rank::First.number() == 0 && Rank::Second.number() == 1 && Rank::Third.number() == 2,
        Rank::Fourth.number() == 3 && Rank::Fifth.number() == 4 && Rank::Sixth.number() == 5,
        Rank::Seventh.number() == 6 && Rank::Eighth.number() == 7,
        sq.number() == 8 * sq.rank.number() + sq.file.number(),
        sq.number() == other.number() ==> sq == other,
        rank.seen_by(Color::White) == rank,
        rank.number() + rank.seen_by(Color::Black).number() == 7,
        rank.seen_by(color).seen_by(color) == rank,
        color.opponent() != color,
        color.opponent().opponent() == color,
{
    square_numbers_are_exact(sq, 0);
    square_numbers_are_exact(other, 0);
}

} // verus!
