//! The piece sets, the color sets and the mailbox agree on what stands where.

use crate::board::board::BoardModel;
use crate::common::types::{Color, Piece, Square};
use vstd::prelude::*;

verus! {

/// Whether the tables agree on a square: the mailbox's piece is the only one
/// there and has one color, and where the mailbox has none nothing stands.
pub open spec fn agreed_on(b: BoardModel, sq: Square) -> bool {
    match b.mailbox[sq] {
        Some(piece) => {
            &&& forall|p: Piece| (#[trigger] b.pieces[p]).contains(sq) <==> p == piece
            &&& b.colors[Color::White].contains(sq) != b.colors[Color::Black].contains(sq)
        },
        None => {
            &&& forall|p: Piece| !(#[trigger] b.pieces[p]).contains(sq)
            &&& !b.standing().contains(sq)
        },
    }
}

/// Whether the tables agree on every square.
pub open spec fn coherent(b: BoardModel) -> bool {
    forall|sq: Square| #[trigger] agreed_on(b, sq)
}

/// Where the tables agree, a square has a piece in the mailbox if and only if one
/// of the colors stands there.
pub proof fn pieces_have_colors(b: BoardModel, sq: Square)
    requires
        coherent(b),
    ensures
        b.mailbox[sq] is Some <==> b.standing().contains(sq),
{
    assert(agreed_on(b, sq));
}

/// On a board with nothing on it the tables agree.
pub proof fn empty_board_is_coherent(b: BoardModel)
    requires
        forall|p: Piece| #[trigger] b.pieces[p] == Set::<Square>::empty(),
        forall|c: Color| #[trigger] b.colors[c] == Set::<Square>::empty(),
        forall|sq: Square| #[trigger] b.mailbox[sq] is None,
    ensures
        coherent(b),
{
    assert forall|sq: Square| #[trigger] agreed_on(b, sq) by {
        assert(b.mailbox[sq] is None);
        assert(b.colors[Color::White] == Set::<Square>::empty());
        assert(b.colors[Color::Black] == Set::<Square>::empty());
    }
}

/// Putting a piece on a free square keeps the tables in agreement.
pub proof fn putting_keeps_the_board_coherent(
    b: BoardModel,
    sq: Square,
    piece: Piece,
    color: Color,
)
    requires
        coherent(b),
        !b.standing().contains(sq),
        forall|p: Piece| #[trigger] b.pieces.dom().contains(p),
        forall|c: Color| #[trigger] b.colors.dom().contains(c),
    ensures
        coherent(b.with_put(sq, piece, color)),
{
    let after = b.with_put(sq, piece, color);
    assert(agreed_on(b, sq));
    assert(b.mailbox[sq] is None);
    assert forall|other: Square| #[trigger] agreed_on(after, other) by {
        assert(agreed_on(b, other));
        assert forall|p: Piece| other != sq implies (#[trigger] after.pieces[p]).contains(other)
            == b.pieces[p].contains(other) by {}
    }
}

} // verus!
