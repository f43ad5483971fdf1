//! Why the duck's squares are what the board says they are.

use crate::board::board::BoardModel;
use crate::common::bitboard::all_squares;
use crate::common::geometry::{between_set, path_clear, strictly_between};
use crate::common::types::{Color, Square};
use vstd::prelude::*;

verus! {

/// Whether an opponent's piece attacks `sq` when `blockers` stand in the way.
pub open spec fn attacked(b: BoardModel, color: Color, sq: Square, blockers: Set<Square>) -> bool {
    exists|attacker: Square| #[trigger]
        b.steppers(color, sq).union(b.sliders(color, sq, blockers)).contains(attacker)
}

/// A duck takes away just the attackers it comes between.
pub proof fn duck_blocks_what_it_comes_between(
    b: BoardModel,
    color: Color,
    sq: Square,
    blockers: Set<Square>,
    duck: Square,
    attacker: Square,
)
    ensures
        b.sliders(color, sq, blockers.insert(duck)).contains(attacker) <==> b.sliders(
            color,
            sq,
            blockers,
        ).contains(attacker) && !between_set(sq, attacker).contains(duck),
{
    let more = blockers.insert(duck);
    assert(path_clear(more, sq, attacker) <==> path_clear(blockers, sq, attacker)
        && !strictly_between(sq, attacker, duck)) by {
        if path_clear(more, sq, attacker) {
            assert forall|c: Square| #[trigger] strictly_between(sq, attacker, c) implies
                !blockers.contains(c) by {
                assert(!more.contains(c));
            }
            assert(strictly_between(sq, attacker, duck) ==> !more.contains(duck));
        }
    }
}

/// While both kings are on the board, the duck saves a king from exactly the
/// squares on which no opponent can capture it any more.
pub proof fn saving_squares_save_the_king(b: BoardModel, color: Color, duck: Square)
    requires
        b.king_square(color) is Some,
        b.king_square(color.opponent()) is Some,
    ensures
        b.saving_squares(color).contains(duck) <==> !attacked(
            b,
            color,
            b.king_square(color)->0,
            b.standing().insert(duck),
        ),
{
    let king = b.king_square(color)->0;
    let blocked = b.standing().insert(duck);
    let steppers = b.steppers(color, king);
    if steppers != Set::<Square>::empty() {
        assert(exists|a: Square| steppers.contains(a)) by {
            if forall|a: Square| !steppers.contains(a) {
                assert(steppers =~= Set::<Square>::empty());
            }
        }
        let a = choose|a: Square| steppers.contains(a);
        assert(steppers.union(b.sliders(color, king, blocked)).contains(a));
    } else {
        if b.saving_squares(color).contains(duck) {
            assert forall|a: Square| !#[trigger]
                steppers.union(b.sliders(color, king, blocked)).contains(a) by {
                duck_blocks_what_it_comes_between(b, color, king, b.standing(), duck, a);
                if b.sliders(color, king, b.standing()).contains(a) {
                    assert(between_set(king, a).contains(duck));
                }
            }
        } else {
            let a = choose|a: Square|
                #![trigger b.sliders(color, king, b.standing()).contains(a)]
                b.sliders(color, king, b.standing()).contains(a) && !between_set(king, a).contains(
                    duck,
                );
            duck_blocks_what_it_comes_between(b, color, king, b.standing(), duck, a);
            assert(steppers.union(b.sliders(color, king, blocked)).contains(a));
        }
    }
}

/// While both kings are on the board, the side to move is in check exactly when
/// an opponent attacks its king past the pieces and the duck.
pub proof fn check_is_an_attack_on_the_king(b: BoardModel)
    requires
        b.king_square(b.stm) is Some,
        b.king_square(b.stm.opponent()) is Some,
    ensures
        b.checked() <==> attacked(b, b.stm, b.king_square(b.stm)->0, b.taken()),
{
    let king = b.king_square(b.stm)->0;
    let saving = b.saving_squares(b.stm);
    match b.duck {
        Some(sq) => {
            saving_squares_save_the_king(b, b.stm, sq);
            assert(all_squares().contains(sq));
        },
        None => {
            let steppers = b.steppers(b.stm, king);
            let sliders = b.sliders(b.stm, king, b.standing());
            if attacked(b, b.stm, king, b.standing()) {
                let a = choose|a: Square| #[trigger] steppers.union(sliders).contains(a);
                assert(all_squares().contains(king));
                if steppers == Set::<Square>::empty() {
                    assert(sliders.contains(a));
                    assert(!between_set(king, a).contains(king));
                    assert(!saving.contains(king));
                } else {
                    assert(!saving.contains(king));
                }
            } else {
                assert forall|a: Square| !#[trigger] steppers.contains(a) by {
                    assert(!steppers.union(sliders).contains(a));
                }
                assert(steppers =~= Set::<Square>::empty());
                assert forall|a: Square| !#[trigger] sliders.contains(a) by {
                    assert(!steppers.union(sliders).contains(a));
                }
                assert(saving =~= all_squares());
            }
        },
    }
}

/// A side whose opponent has lost the king is never in check.
pub proof fn no_check_without_an_opposing_king(b: BoardModel)
    requires
        b.king_square(b.stm.opponent()) is None,
    ensures
        !b.checked(),
{
}

/// The duck cuts off an attacker from exactly the squares where putting it takes
/// an attacker away.
pub proof fn cutting_squares_take_attackers_away(
    b: BoardModel,
    color: Color,
    sq: Square,
    duck: Square,
)
    ensures
        b.cutting_squares(color, sq).contains(duck) <==> b.sliders(
            color,
            sq,
            b.standing().insert(duck),
        ) != b.sliders(color, sq, b.standing()),
{
    let now = b.sliders(color, sq, b.standing());
    let moved = b.sliders(color, sq, b.standing().insert(duck));
    if b.cutting_squares(color, sq).contains(duck) {
        let a = choose|a: Square| #[trigger]
            now.contains(a) && between_set(sq, a).contains(duck);
        duck_blocks_what_it_comes_between(b, color, sq, b.standing(), duck, a);
        assert(now.contains(a) && !moved.contains(a));
    } else {
        assert forall|a: Square| #[trigger] moved.contains(a) <==> now.contains(a) by {
            duck_blocks_what_it_comes_between(b, color, sq, b.standing(), duck, a);
        }
        assert(moved =~= now);
    }
}

} // verus!
