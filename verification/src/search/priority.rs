//! Which of two moves is handed out first.

use crate::board::attacks::{on_the_way, strikes, the_duck_cuts_off_what_strikes_from_afar};
use crate::board::board::BoardModel;
use crate::common::moves::{Move, MoveFlag};
use crate::common::types::{Color, Piece, Square};
use crate::position::PositionModel;
use crate::rules::{legal, MoveFilter, Rules};
use crate::search::backend::Backend;
use crate::search::move_picker::{ranked_moves, PickerModel};
use crate::search::move_stack::{unscored, ScoredMove};
use crate::search::ordering::{
    gain, move_score, moves_scored, noisy_score, quiet_score, ranking_keeps_every_move,
    ranking_moves_only, with_score,
};
use crate::search::picking::{
    handed_out, order_of_moves, others, quiets_from, table_move,
};
use vstd::prelude::*;

verus! {

/// Whether a move comes before another in a sequence, wherever both stand in it.
pub open spec fn comes_before(out: Seq<Move>, x: Move, y: Move) -> bool {
    forall|i: int, j: int|
        0 <= i < out.len() && 0 <= j < out.len() && #[trigger] out[i] == x && #[trigger] out[j]
            == y ==> i < j
}

/// The piece that a move captures: on its destination, or a pawn beside it.
pub open spec fn victim(b: BoardModel, mv: Move) -> Option<Piece> {
    match mv.flag {
        MoveFlag::EnPassant => Some(Piece::Pawn),
        MoveFlag::Capture
        | MoveFlag::KnightCapturePromotion
        | MoveFlag::BishopCapturePromotion
        | MoveFlag::RookCapturePromotion
        | MoveFlag::QueenCapturePromotion => Some(b.mailbox[mv.dest]->0),
        _ => None,
    }
}

/// The piece that a pawn becomes by a move.
pub open spec fn promoted(mv: Move) -> Option<Piece> {
    match mv.flag {
        MoveFlag::KnightPromotion | MoveFlag::KnightCapturePromotion => Some(Piece::Knight),
        MoveFlag::BishopPromotion | MoveFlag::BishopCapturePromotion => Some(Piece::Bishop),
        MoveFlag::RookPromotion | MoveFlag::RookCapturePromotion => Some(Piece::Rook),
        MoveFlag::QueenPromotion | MoveFlag::QueenCapturePromotion => Some(Piece::Queen),
        _ => None,
    }
}

/// What a move wins in material.
pub open spec fn won<B: Backend>(b: BoardModel, mv: Move) -> int {
    (match victim(b, mv) {
        Some(piece) => B::worth(piece),
        None => 0,
    }) + (match promoted(mv) {
        Some(piece) => B::worth(piece) - B::worth(Piece::Pawn),
        None => 0,
    })
}

/// Whether a move puts its duck on the way between its destination and an enemy
/// bishop, rook or queen that strikes there.
pub open spec fn covers_itself(b: BoardModel, mv: Move) -> bool {
    exists|a: Square|
        #![trigger on_the_way(a, mv.dest, mv.duck)]
        on_the_way(a, mv.dest, mv.duck) && exists|side: Color| #[trigger]
            b.colors[side].contains(a) && side != b.stm && (b.pieces[Piece::Bishop].contains(a)
                && strikes(Piece::Bishop, side, a, mv.dest, b.standing())
                || b.pieces[Piece::Rook].contains(a) && strikes(
                Piece::Rook,
                side,
                a,
                mv.dest,
                b.standing(),
            ) || b.pieces[Piece::Queen].contains(a) && strikes(
                Piece::Queen,
                side,
                a,
                mv.dest,
                b.standing(),
            ))
}

/// A move wins the worth of its victim, and of what a pawn becomes less the pawn.
pub proof fn moves_gain_what_they_win<B: Backend>(b: BoardModel, mv: Move)
    ensures
        gain::<B>(b, mv) == won::<B>(b, mv),
        mv.flag.noisy() <==> victim(b, mv) is Some || promoted(mv) is Some,
        mv.flag.takes() <==> victim(b, mv) is Some && !(mv.flag is EnPassant),
        mv.flag.promotes_to() == promoted(mv),
{
}

/// Of two noisy moves of one board the score orders by what they win, whichever side
/// is to move; among equals by the statistics of moves and of ducks, and by whether
/// the duck covers the destination.
pub proof fn noisy_scores_compare<B: Backend>(s: B::State, b: BoardModel, x: Move, y: Move)
    requires
        B::noisy_of(s, b, x) >= B::noisy_of(s, b, y),
        B::duck_of(s, b, x) >= B::duck_of(s, b, y),
        covers_itself(b, y) ==> covers_itself(b, x),
        won::<B>(b, x) >= won::<B>(b, y),
    ensures
        noisy_score::<B>(s, b, x) >= noisy_score::<B>(s, b, y),
        noisy_score::<B>(s, b, x) - noisy_score::<B>(s, b, y) >= 8 * (won::<B>(b, x) - won::<B>(
            b,
            y,
        )),
        covers_itself(b, x) && !covers_itself(b, y) ==> noisy_score::<B>(s, b, x) - noisy_score::<
            B,
        >(s, b, y) >= 6000,
        B::noisy_of(s, b, x) >= B::noisy_of(s, b, y) + 15 ==> noisy_score::<B>(s, b, x)
            > noisy_score::<B>(s, b, y),
        B::duck_of(s, b, x) >= B::duck_of(s, b, y) + 15 ==> noisy_score::<B>(s, b, x)
            > noisy_score::<B>(s, b, y),
        B::noisy_of(s, b, x) == B::noisy_of(s, b, y) && B::duck_of(s, b, x) == B::duck_of(s, b, y)
            ==> noisy_score::<B>(s, b, x) - noisy_score::<B>(s, b, y) == 8 * (won::<B>(b, x)
            - won::<B>(b, y)) + if covers_itself(b, x) && !covers_itself(b, y) {
            6000int
        } else {
            0
        },
{
    moves_gain_what_they_win::<B>(b, x);
    moves_gain_what_they_win::<B>(b, y);
    the_duck_cuts_off_what_strikes_from_afar(b, b.stm, x.dest, x.duck);
    the_duck_cuts_off_what_strikes_from_afar(b, b.stm, y.dest, y.duck);
}

/// A noisy move's score is eight times what it wins, an eighth of what the
/// statistics say of it and of its duck, each cut towards zero, and 6000 if the duck
/// covers the destination.
pub proof fn noisy_scores_add_up<B: Backend>(s: B::State, b: BoardModel, mv: Move)
    ensures
        ({
            let rest = noisy_score::<B>(s, b, mv) - 8 * won::<B>(b, mv) - if covers_itself(b, mv) {
                6000int
            } else {
                0
            };
            let moves = B::noisy_of(s, b, mv);
            let ducks = B::duck_of(s, b, mv);
            exists|m: int, d: int|
                #![trigger an_eighth(moves, m), an_eighth(ducks, d)]
                an_eighth(moves, m) && an_eighth(ducks, d) && rest == m + d
        }),
{
    moves_gain_what_they_win::<B>(b, mv);
    the_duck_cuts_off_what_strikes_from_afar(b, b.stm, mv.dest, mv.duck);
    let moves = B::noisy_of(s, b, mv);
    let ducks = B::duck_of(s, b, mv);
    assert(an_eighth(moves, crate::search::ordering::eighth(moves)));
    assert(an_eighth(ducks, crate::search::ordering::eighth(ducks)));
}

/// Whether `part` is an eighth of `whole`, cut towards zero.
pub open spec fn an_eighth(whole: int, part: int) -> bool {
    &&& whole >= 0 ==> 0 <= 8 * part <= whole < 8 * part + 8
    &&& whole < 0 ==> 8 * part - 8 < whole <= 8 * part <= 0
}

/// A quiet move's score is the sum of what the statistics say of it, of its duck, and
/// of it as a continuation.
pub proof fn quiet_scores_add_up<B: Backend>(s: B::State, p: PositionModel, mv: Move)
    ensures
        quiet_score::<B>(s, p, mv) - B::quiet_of(s, p.board(), mv) - B::duck_of(s, p.board(), mv)
            == B::cont_of(s, p, mv),
        move_score::<B>(MoveFilter::Quiet, s, p, mv) == quiet_score::<B>(s, p, mv),
        move_score::<B>(MoveFilter::Noisy, s, p, mv) == noisy_score::<B>(s, p.board(), mv),
{
}

// The order.

/// Whether a move's score can be held.
pub open spec fn holds(score: int) -> bool {
    i32::MIN <= score <= i32::MAX
}

proof fn lemma_others_in_order(
    list: Seq<ScoredMove>,
    tt_move: Option<Move>,
    cursor: int,
    a: int,
) -> (i: int)
    requires
        0 <= cursor <= list.len(),
        0 <= a < others(list, tt_move, cursor).len(),
    ensures
        cursor <= i < list.len(),
        list[i].0 == others(list, tt_move, cursor)[a],
        tt_move != Some(list[i].0),
        others(list, tt_move, cursor).skip(a + 1) == others(list, tt_move, i + 1),
    decreases list.len() - cursor,
{
    if tt_move == Some(list[cursor].0) {
        lemma_others_in_order(list, tt_move, cursor + 1, a)
    } else {
        let rest = others(list, tt_move, cursor + 1);
        assert(others(list, tt_move, cursor) == seq![list[cursor].0] + rest);
        if a == 0 {
            assert((seq![list[cursor].0] + rest).skip(1) =~= rest);
            cursor
        } else {
            let i = lemma_others_in_order(list, tt_move, cursor + 1, a - 1);
            assert((seq![list[cursor].0] + rest).skip(a + 1) =~= rest.skip(a));
            i
        }
    }
}

proof fn lemma_entry_score<R: Rules, B: Backend>(
    filter: MoveFilter,
    rules: &R,
    s: B::State,
    p: PositionModel,
    tt_move: Option<Move>,
    i: int,
)
    requires
        0 <= i < ranked_moves::<R, B>(filter, rules, s, p, tt_move).len(),
        tt_move != Some(ranked_moves::<R, B>(filter, rules, s, p, tt_move)[i].0),
    ensures
        ({
            let entry = ranked_moves::<R, B>(filter, rules, s, p, tt_move)[i];
            holds(move_score::<B>(filter, s, p, entry.0)) ==> entry.1 == move_score::<B>(
                filter,
                s,
                p,
                entry.0,
            )
        }),
{
    let moves = rules.moves(p.board(), filter);
    let scored = moves_scored::<B>(filter, s, p, tt_move, unscored(moves));
    let list = ranked_moves::<R, B>(filter, rules, s, p, tt_move);
    ranking_moves_only(scored, list[i]);
    assert(list.contains(list[i]));
    let k = choose|k: int| 0 <= k < scored.len() && scored[k] == list[i];
    assert(scored[k] == with_score::<B>(filter, s, p, tt_move, unscored(moves)[k]));
}

proof fn lemma_higher_first<R: Rules, B: Backend>(
    filter: MoveFilter,
    rules: &R,
    s: B::State,
    p: PositionModel,
    tt_move: Option<Move>,
    x: Move,
    y: Move,
)
    requires
        holds(move_score::<B>(filter, s, p, x)),
        holds(move_score::<B>(filter, s, p, y)),
        move_score::<B>(filter, s, p, x) > move_score::<B>(filter, s, p, y),
    ensures
        comes_before(others(ranked_moves::<R, B>(filter, rules, s, p, tt_move), tt_move, 0), x, y),
{
    let list = ranked_moves::<R, B>(filter, rules, s, p, tt_move);
    let scored = moves_scored::<B>(
        filter,
        s,
        p,
        tt_move,
        unscored(rules.moves(p.board(), filter)),
    );
    let out = others(list, tt_move, 0);
    ranking_keeps_every_move(scored);
    assert forall|a: int, b: int|
        0 <= a < out.len() && 0 <= b < out.len() && #[trigger] out[a] == x && #[trigger] out[b]
            == y implies a < b by {
        if b < a {
            let j = lemma_others_in_order(list, tt_move, 0, b);
            lemma_entry_score::<R, B>(filter, rules, s, p, tt_move, j);
            let rest = others(list, tt_move, j + 1);
            assert(out.skip(b + 1)[a - b - 1] == x);
            let i = lemma_others_in_order(list, tt_move, j + 1, a - b - 1);
            lemma_entry_score::<R, B>(filter, rules, s, p, tt_move, i);
            assert(list[j].1 >= list[i].1);
        }
    }
}

/// A picker hands out the table's move first if it is legal, then the noisy moves,
/// then the quiet ones.
pub proof fn table_move_then_noisy_then_quiet<R: Rules, B: Backend>(
    rules: &R,
    p: PositionModel,
    states: spec_fn(int) -> B::State,
    pk: PickerModel,
    x: Move,
    y: Move,
)
    requires
        pk.stage is TTMove,
        pk.cursor == 0,
        pk.tt_move != Some(x),
        pk.tt_move != Some(y),
        rules.moves(p.board(), MoveFilter::Noisy).contains(x),
        rules.moves(p.board(), MoveFilter::Quiet).contains(y),
    ensures
        ({
            let out = handed_out::<R, B>(rules, p, states, 0, pk, Seq::empty());
            &&& comes_before(out, x, y)
            &&& pk.tt_move is Some && legal(rules, p.board(), pk.tt_move->0) ==> out.len() > 0
                && out[0] == pk.tt_move->0
        }),
{
    order_of_moves::<R, B>(rules, p, states, pk);
    let first = table_move(rules, p, pk.tt_move);
    let noisies = others(
        ranked_moves::<R, B>(MoveFilter::Noisy, rules, states(first.len() as int), p, pk.tt_move),
        pk.tt_move,
        0,
    );
    let quiets = quiets_from::<R, B>(
        rules,
        p,
        states((first.len() + noisies.len()) as int),
        pk,
    );
    let out = first + noisies + quiets;
    rules.moves_are_of_their_kind(p.board(), MoveFilter::Noisy, x);
    rules.moves_are_of_their_kind(p.board(), MoveFilter::Quiet, y);
    assert forall|i: int, j: int|
        0 <= i < out.len() && 0 <= j < out.len() && #[trigger] out[i] == x && #[trigger] out[j]
            == y implies i < j by {
        lemma_place::<R, B>(rules, p, states, pk, i);
        lemma_place::<R, B>(rules, p, states, pk, j);
    }
}

proof fn lemma_place<R: Rules, B: Backend>(
    rules: &R,
    p: PositionModel,
    states: spec_fn(int) -> B::State,
    pk: PickerModel,
    i: int,
)
    requires
        pk.stage is TTMove,
        pk.cursor == 0,
        0 <= i < handed_out::<R, B>(rules, p, states, 0, pk, Seq::empty()).len(),
    ensures
        ({
            let out = handed_out::<R, B>(rules, p, states, 0, pk, Seq::empty());
            let first = table_move(rules, p, pk.tt_move);
            let noisies = others(
                ranked_moves::<R, B>(
                    MoveFilter::Noisy,
                    rules,
                    states(first.len() as int),
                    p,
                    pk.tt_move,
                ),
                pk.tt_move,
                0,
            );
            let quiets = quiets_from::<R, B>(
                rules,
                p,
                states((first.len() + noisies.len()) as int),
                pk,
            );
            let n = first.len() as int;
            let m = n + noisies.len();
            &&& out == first + noisies + quiets
            &&& i < n ==> pk.tt_move == Some(out[i])
            &&& n <= i < m ==> out[i].flag.noisy() && out[i] == noisies[i - n]
            &&& m <= i ==> !out[i].flag.noisy() && out[i] == quiets[i - m]
        }),
{
    order_of_moves::<R, B>(rules, p, states, pk);
    let b = p.board();
    let first = table_move(rules, p, pk.tt_move);
    let s1 = states(first.len() as int);
    let noisy_list = ranked_moves::<R, B>(MoveFilter::Noisy, rules, s1, p, pk.tt_move);
    let noisies = others(noisy_list, pk.tt_move, 0);
    let s2 = states((first.len() + noisies.len()) as int);
    let quiet_list = ranked_moves::<R, B>(MoveFilter::Quiet, rules, s2, p, pk.tt_move);
    let n = first.len() as int;
    let m = n + noisies.len();
    if n <= i < m {
        let k = lemma_others_in_order(noisy_list, pk.tt_move, 0, i - n);
        crate::search::picking::lemma_ranked_members::<R, B>(
            MoveFilter::Noisy,
            rules,
            s1,
            p,
            pk.tt_move,
            noisy_list[k].0,
        );
        rules.moves_are_of_their_kind(b, MoveFilter::Noisy, noisy_list[k].0);
    }
    if m <= i {
        let k = lemma_others_in_order(quiet_list, pk.tt_move, 0, i - m);
        crate::search::picking::lemma_ranked_members::<R, B>(
            MoveFilter::Quiet,
            rules,
            s2,
            p,
            pk.tt_move,
            quiet_list[k].0,
        );
        rules.moves_are_of_their_kind(b, MoveFilter::Quiet, quiet_list[k].0);
    }
}

/// Of two noisy moves that the statistics and the duck's cover set equal, the one
/// that wins more is handed out first, whichever side is to move. Where one wins no
/// less, is favoured no less by the statistics, and is covered if the other is, it
/// comes first too if it alone is covered, or if the statistics favour it clearly.
pub proof fn the_noisy_move_that_wins_more_comes_first<R: Rules, B: Backend>(
    rules: &R,
    p: PositionModel,
    states: spec_fn(int) -> B::State,
    pk: PickerModel,
    x: Move,
    y: Move,
)
    requires
        pk.stage is TTMove,
        pk.cursor == 0,
        pk.tt_move != Some(x),
        pk.tt_move != Some(y),
        rules.moves(p.board(), MoveFilter::Noisy).contains(x),
        rules.moves(p.board(), MoveFilter::Noisy).contains(y),
        forall|s: B::State|
            holds(#[trigger] noisy_score::<B>(s, p.board(), x)) && holds(
                noisy_score::<B>(s, p.board(), y),
            ),
        forall|s: B::State|
            #![trigger B::noisy_of(s, p.board(), x)]
            B::noisy_of(s, p.board(), x) >= B::noisy_of(s, p.board(), y) && B::duck_of(
                s,
                p.board(),
                x,
            ) >= B::duck_of(s, p.board(), y),
        covers_itself(p.board(), y) ==> covers_itself(p.board(), x),
        won::<B>(p.board(), x) >= won::<B>(p.board(), y),
        won::<B>(p.board(), x) > won::<B>(p.board(), y) || covers_itself(p.board(), x)
            && !covers_itself(p.board(), y) || (forall|s: B::State|
            #![trigger B::noisy_of(s, p.board(), x)]
            B::noisy_of(s, p.board(), x) >= B::noisy_of(s, p.board(), y) + 15),
    ensures
        comes_before(handed_out::<R, B>(rules, p, states, 0, pk, Seq::empty()), x, y),
{
    let b = p.board();
    let out = handed_out::<R, B>(rules, p, states, 0, pk, Seq::empty());
    let first = table_move(rules, p, pk.tt_move);
    let s = states(first.len() as int);
    assert(B::noisy_of(s, b, x) >= B::noisy_of(s, b, y));
    noisy_scores_compare::<B>(s, b, x, y);
    assert(holds(noisy_score::<B>(s, b, x)));
    lemma_higher_first::<R, B>(MoveFilter::Noisy, rules, s, p, pk.tt_move, x, y);
    rules.moves_are_of_their_kind(b, MoveFilter::Noisy, x);
    rules.moves_are_of_their_kind(b, MoveFilter::Noisy, y);
    assert forall|i: int, j: int|
        0 <= i < out.len() && 0 <= j < out.len() && #[trigger] out[i] == x && #[trigger] out[j]
            == y implies i < j by {
        lemma_place::<R, B>(rules, p, states, pk, i);
        lemma_place::<R, B>(rules, p, states, pk, j);
    }
}

/// Of two quiet moves the one that the statistics favour is handed out first: those
/// of the move, of its duck and of the move as a continuation, taken together.
pub proof fn the_quiet_move_with_better_statistics_comes_first<R: Rules, B: Backend>(
    rules: &R,
    p: PositionModel,
    states: spec_fn(int) -> B::State,
    pk: PickerModel,
    x: Move,
    y: Move,
)
    requires
        pk.stage is TTMove,
        pk.cursor == 0,
        pk.tt_move != Some(x),
        pk.tt_move != Some(y),
        rules.moves(p.board(), MoveFilter::Quiet).contains(x),
        rules.moves(p.board(), MoveFilter::Quiet).contains(y),
        forall|s: B::State|
            holds(#[trigger] quiet_score::<B>(s, p, x)) && holds(quiet_score::<B>(s, p, y)),
        forall|s: B::State|
            #![trigger B::quiet_of(s, p.board(), x)]
            B::quiet_of(s, p.board(), x) + B::duck_of(s, p.board(), x) + B::cont_of(s, p, x)
                > B::quiet_of(s, p.board(), y) + B::duck_of(s, p.board(), y) + B::cont_of(s, p, y),
    ensures
        comes_before(handed_out::<R, B>(rules, p, states, 0, pk, Seq::empty()), x, y),
{
    let b = p.board();
    let out = handed_out::<R, B>(rules, p, states, 0, pk, Seq::empty());
    let first = table_move(rules, p, pk.tt_move);
    let noisies = others(
        ranked_moves::<R, B>(MoveFilter::Noisy, rules, states(first.len() as int), p, pk.tt_move),
        pk.tt_move,
        0,
    );
    let s = states((first.len() + noisies.len()) as int);
    quiet_scores_add_up::<B>(s, p, x);
    quiet_scores_add_up::<B>(s, p, y);
    assert(B::quiet_of(s, b, x) + B::duck_of(s, b, x) + B::cont_of(s, p, x) > B::quiet_of(s, b, y)
        + B::duck_of(s, b, y) + B::cont_of(s, p, y));
    assert(holds(quiet_score::<B>(s, p, x)));
    lemma_higher_first::<R, B>(MoveFilter::Quiet, rules, s, p, pk.tt_move, x, y);
    rules.moves_are_of_their_kind(b, MoveFilter::Quiet, x);
    rules.moves_are_of_their_kind(b, MoveFilter::Quiet, y);
    assert forall|i: int, j: int|
        0 <= i < out.len() && 0 <= j < out.len() && #[trigger] out[i] == x && #[trigger] out[j]
            == y implies i < j by {
        lemma_place::<R, B>(rules, p, states, pk, i);
        lemma_place::<R, B>(rules, p, states, pk, j);
    }
}

} // verus!
