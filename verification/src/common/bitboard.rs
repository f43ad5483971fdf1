//! Sets of squares, held as one bit per square.

use crate::common::types::{square_numbers_are_exact, Square};
use vstd::prelude::*;
use vstd::std_specs::bits::{axiom_u64_trailing_zeros, u64_trailing_zeros};

verus! {

/// A set of squares. Bit `i` stands for the square numbered `i`.
#[derive(Debug, Clone, Copy, PartialEq, Eq, Structural)]
pub struct Bitboard(pub u64);

/// Whether bit `i` of `bits` is set.
pub open spec fn bit(bits: u64, i: int) -> bool {
    (bits >> (i as u64)) & 1u64 == 1u64
}

/// The squares whose bits are set.
pub open spec fn squares_of(bits: u64) -> Set<Square> {
    Set::new(|sq: Square| bit(bits, sq.number()))
}

/// Every square of the board.
pub open spec fn all_squares() -> Set<Square> {
    Set::new(|sq: Square| true)
}

/// The lowest-numbered member of `set` whose number is at least `from`.
pub open spec fn first_from(set: Set<Square>, from: int) -> Option<Square>
    decreases 64 - from,
{
    if from >= 64 {
        None
    } else if set.contains(Square::at(from)) {
        Some(Square::at(from))
    } else {
        first_from(set, from + 1)
    }
}

/// The lowest-numbered member of `set`.
pub open spec fn first(set: Set<Square>) -> Option<Square> {
    first_from(set, 0)
}

impl View for Bitboard {
    type V = Set<Square>;

    open spec fn view(&self) -> Set<Square> {
        squares_of(self.0)
    }
}

proof fn lemma_bit_ops(a: u64, b: u64, i: u64)
    by (bit_vector)
    requires
        i < 64,
    ensures
        ((a & b) >> i) & 1u64 == 1u64 <==> (a >> i) & 1u64 == 1u64 && (b >> i) & 1u64 == 1u64,
        ((a | b) >> i) & 1u64 == 1u64 <==> (a >> i) & 1u64 == 1u64 || (b >> i) & 1u64 == 1u64,
        ((a ^ b) >> i) & 1u64 == 1u64 <==> ((a >> i) & 1u64 == 1u64) != ((b >> i) & 1u64 == 1u64),
        ((!a) >> i) & 1u64 == 1u64 <==> (a >> i) & 1u64 != 1u64,
{
}

proof fn lemma_single_bit(k: u64, i: u64)
    by (bit_vector)
    requires
        i < 64,
        k < 64,
    ensures
        ((1u64 << k) >> i) & 1u64 == 1u64 <==> i == k,
{
}

proof fn lemma_constant_bits(i: u64)
    by (bit_vector)
    requires
        i < 64,
    ensures
        (0u64 >> i) & 1u64 != 1u64,
        (0xffff_ffff_ffff_ffffu64 >> i) & 1u64 == 1u64,
{
}

proof fn lemma_extremes()
    ensures
        squares_of(0) == Set::<Square>::empty(),
        squares_of(0xffff_ffff_ffff_ffff) == all_squares(),
{
    assert forall|sq: Square| !#[trigger] squares_of(0).contains(sq) by {
        square_numbers_are_exact(sq, 0);
        lemma_constant_bits(sq.number() as u64);
    }
    assert forall|sq: Square| #[trigger] squares_of(0xffff_ffff_ffff_ffff).contains(sq) by {
        square_numbers_are_exact(sq, 0);
        lemma_constant_bits(sq.number() as u64);
    }
    assert(squares_of(0) =~= Set::<Square>::empty());
    assert(squares_of(0xffff_ffff_ffff_ffff) =~= all_squares());
}

proof fn lemma_xor_zero(a: u64, b: u64)
    by (bit_vector)
    requires
        a ^ b == 0,
    ensures
        a == b,
{
}

/// Two bitboards with the same members are the same bitboard.
pub proof fn same_squares_same_bitboard(a: Bitboard, b: Bitboard)
    requires
        a@ == b@,
    ensures
        a == b,
{
    let x = a.0 ^ b.0;
    axiom_u64_trailing_zeros(x);
    if x != 0 {
        let i = u64_trailing_zeros(x) as u64;
        lemma_bit_ops(a.0, b.0, i);
        square_numbers_are_exact(Square::at(i as int), i as int);
        let sq = Square::at(i as int);
        assert(a@.contains(sq) == b@.contains(sq));
        assert(a@.contains(sq) == bit(a.0, i as int));
        assert(b@.contains(sq) == bit(b.0, i as int));
    }
    lemma_xor_zero(a.0, b.0);
}

/// The lowest-numbered member is a member, no member has a lower number, and
/// there is one exactly when the set has members.
pub proof fn first_is_lowest(set: Set<Square>, from: int)
    requires
        0 <= from <= 64,
    ensures
        first_from(set, from) matches Some(sq) ==> set.contains(sq) && sq.number() >= from && (
        forall|other: Square| #[trigger]
            set.contains(other) && other.number() >= from ==> sq.number() <= other.number()),
        first_from(set, from) is None ==> (forall|sq: Square| #[trigger]
            set.contains(sq) ==> sq.number() < from),
    decreases 64 - from,
{
    if from < 64 {
        square_numbers_are_exact(Square::at(from), from);
        if !set.contains(Square::at(from)) {
            first_is_lowest(set, from + 1);
            assert forall|other: Square| #[trigger]
                set.contains(other) && other.number() >= from implies other.number() >= from
                + 1 by {
                square_numbers_are_exact(other, from);
            }
        }
    } else {
        assert forall|sq: Square| #[trigger] set.contains(sq) implies sq.number() < from by {
            square_numbers_are_exact(sq, 0);
        }
    }
}

/// No bits, no squares.
pub proof fn zero_has_no_squares()
    ensures
        squares_of(0) == Set::<Square>::empty(),
{
    lemma_extremes();
}

impl Bitboard {
    /// The set without members.
    pub fn empty() -> (r: Bitboard)
        ensures
            r@ == Set::<Square>::empty(),
    {
        proof {
            lemma_extremes();
        }
        Bitboard(0)
    }

    /// The set of all squares.
    pub fn full() -> (r: Bitboard)
        ensures
            r@ == all_squares(),
    {
        proof {
            lemma_extremes();
        }
        Bitboard(0xffff_ffff_ffff_ffff)
    }

    /// The set with one member.
    pub fn single(sq: Square) -> (r: Bitboard)
        ensures
            r@ == Set::<Square>::empty().insert(sq),
    {
        let k = sq.index() as u64;
        let r = Bitboard(1u64 << k);
        assert forall|other: Square| #[trigger] r@.contains(other) <==> other == sq by {
            square_numbers_are_exact(other, 0);
            square_numbers_are_exact(sq, 0);
            lemma_single_bit(k, other.number() as u64);
        }
        assert(r@ =~= Set::<Square>::empty().insert(sq));
        r
    }

    pub fn has(self, sq: Square) -> (r: bool)
        ensures
            r == self@.contains(sq),
    {
        (self.0 >> (sq.index() as u64)) & 1 == 1
    }

    pub fn union(self, other: Bitboard) -> (r: Bitboard)
        ensures
            r@ == self@.union(other@),
    {
        let r = Bitboard(self.0 | other.0);
        assert forall|sq: Square| #[trigger]
            r@.contains(sq) <==> self@.contains(sq) || other@.contains(sq) by {
            square_numbers_are_exact(sq, 0);
            lemma_bit_ops(self.0, other.0, sq.number() as u64);
        }
        assert(r@ =~= self@.union(other@));
        r
    }

    pub fn intersection(self, other: Bitboard) -> (r: Bitboard)
        ensures
            r@ == self@.intersect(other@),
    {
        let r = Bitboard(self.0 & other.0);
        assert forall|sq: Square| #[trigger]
            r@.contains(sq) <==> self@.contains(sq) && other@.contains(sq) by {
            square_numbers_are_exact(sq, 0);
            lemma_bit_ops(self.0, other.0, sq.number() as u64);
        }
        assert(r@ =~= self@.intersect(other@));
        r
    }

    pub fn complement(self) -> (r: Bitboard)
        ensures
            r@ == self@.complement(),
    {
        let r = Bitboard(!self.0);
        assert forall|sq: Square| #[trigger] r@.contains(sq) <==> !self@.contains(sq) by {
            square_numbers_are_exact(sq, 0);
            lemma_bit_ops(self.0, self.0, sq.number() as u64);
        }
        assert(r@ =~= self@.complement());
        r
    }

    /// Adds the square if it is absent and removes it if it is present.
    pub fn toggled(self, sq: Square) -> (r: Bitboard)
        ensures
            r@ == toggled_set(self@, sq),
    {
        let one = Bitboard::single(sq);
        let r = Bitboard(self.0 ^ one.0);
        assert forall|other: Square| #[trigger]
            r@.contains(other) <==> (self@.contains(other) != (other == sq)) by {
            square_numbers_are_exact(other, 0);
            lemma_bit_ops(self.0, one.0, other.number() as u64);
            assert(one@.contains(other) <==> other == sq);
        }
        assert(r@ =~= toggled_set(self@, sq));
        r
    }

    pub fn is_empty(self) -> (r: bool)
        ensures
            r == (self@ == Set::<Square>::empty()),
    {
        proof {
            lemma_extremes();
            if self@ == Set::<Square>::empty() {
                same_squares_same_bitboard(self, Bitboard(0));
            }
        }
        self.0 == 0
    }

    pub fn is_nonempty(self) -> (r: bool)
        ensures
            r == (self@ != Set::<Square>::empty()),
    {
        !self.is_empty()
    }

    pub fn is_full(self) -> (r: bool)
        ensures
            r == (self@ == all_squares()),
    {
        proof {
            lemma_extremes();
            if self@ == all_squares() {
                same_squares_same_bitboard(self, Bitboard(0xffff_ffff_ffff_ffff));
            }
        }
        self.0 == 0xffff_ffff_ffff_ffff
    }

    /// The lowest-numbered member, if there is one.
    pub fn try_next(self) -> (r: Option<Square>)
        ensures
            r == first(self@),
    {
        let mut i: usize = 0;
        while i < 64
            invariant
                i <= 64,
                first(self@) == first_from(self@, i as int),
            decreases 64 - i,
        {
            let sq = Square::from_index(i);
            if self.has(sq) {
                return Some(sq);
            }
            i += 1;
        }
        None
    }

    /// The lowest-numbered member.
    pub fn next(self) -> (r: Square)
        requires
            first(self@) is Some,
        ensures
            first(self@) == Some(r),
    {
        match self.try_next() {
            Some(sq) => sq,
            None => Square::from_index(0),
        }
    }
}

/// `set` with the membership of `sq` changed.
pub open spec fn toggled_set(set: Set<Square>, sq: Square) -> Set<Square> {
    if set.contains(sq) {
        set.remove(sq)
    } else {
        set.insert(sq)
    }
}

} // verus!
