//! What a picker hands out over its whole life.

use crate::common::moves::Move;
use crate::position::PositionModel;
use crate::rules::{legal, MoveFilter, Rules};
use crate::search::backend::Backend;
use crate::search::model::turns_run_out;
use crate::search::move_picker::{
    next_other, ranked_moves, ranked_noisies, ranked_quiets, PickerModel, Stage,
};
use crate::search::move_stack::{unscored, ScoredMove};
use crate::search::ordering::{
    moves_scored, ranked, ranking_keeps_every_move, ranking_moves_only,
};
use vstd::prelude::*;

verus! {

/// The moves a picker hands out when it is asked until it has none left. The
/// surroundings may change between asking: `states(k)` is their state when the
/// picker is asked for the move numbered `k`.
pub open spec fn handed_out<R: Rules, B: Backend>(
    rules: &R,
    p: PositionModel,
    states: spec_fn(int) -> B::State,
    k: int,
    pk: PickerModel,
    list: Seq<ScoredMove>,
) -> Seq<Move>
    decreases pk.stage.ahead(), list.len() - pk.cursor,
{
    proof {
        turns_run_out::<R, B>(rules, states(k), p, pk, list);
    }
    let turn = pk.pick::<R, B>(rules, states(k), p, list);
    if turn.mv is None {
        Seq::empty()
    } else {
        seq![turn.mv->0] + handed_out::<R, B>(rules, p, states, k + 1, turn.picker, turn.list)
    }
}

/// The moves of a list from `cursor` on, without the move from the table.
pub open spec fn others(list: Seq<ScoredMove>, tt_move: Option<Move>, cursor: int) -> Seq<Move>
    decreases list.len() - cursor,
{
    if cursor >= list.len() {
        Seq::empty()
    } else if tt_move == Some(list[cursor].0) {
        others(list, tt_move, cursor + 1)
    } else {
        seq![list[cursor].0] + others(list, tt_move, cursor + 1)
    }
}

/// The move from the table, if it is legal.
pub open spec fn table_move<R: Rules>(
    rules: &R,
    p: PositionModel,
    tt_move: Option<Move>,
) -> Seq<Move> {
    if tt_move is Some && legal(rules, p.board(), tt_move->0) {
        seq![tt_move->0]
    } else {
        Seq::empty()
    }
}

proof fn lemma_others_by_next(list: Seq<ScoredMove>, tt_move: Option<Move>, cursor: int)
    requires
        0 <= cursor <= list.len(),
    ensures
        ({
            let i = next_other(list, tt_move, cursor);
            &&& cursor <= i <= list.len()
            &&& others(list, tt_move, cursor) == if i < list.len() {
                seq![list[i].0] + others(list, tt_move, i + 1)
            } else {
                Seq::empty()
            }
        }),
    decreases list.len() - cursor,
{
    if cursor < list.len() && tt_move == Some(list[cursor].0) {
        lemma_others_by_next(list, tt_move, cursor + 1);
    }
}

proof fn lemma_others_of_tail(
    list: Seq<ScoredMove>,
    more: Seq<ScoredMove>,
    tt_move: Option<Move>,
    i: int,
)
    requires
        0 <= i <= more.len(),
    ensures
        others(list + more, tt_move, list.len() + i) == others(more, tt_move, i),
    decreases more.len() - i,
{
    if i < more.len() {
        assert((list + more)[list.len() + i] == more[i]);
        lemma_others_of_tail(list, more, tt_move, i + 1);
    }
}

proof fn lemma_quiets_handed_out<R: Rules, B: Backend>(
    rules: &R,
    p: PositionModel,
    states: spec_fn(int) -> B::State,
    k: int,
    pk: PickerModel,
    list: Seq<ScoredMove>,
)
    requires
        pk.stage is YieldQuiets,
        !pk.skip_quiets,
        0 <= pk.cursor <= list.len(),
    ensures
        handed_out::<R, B>(rules, p, states, k, pk, list) == others(list, pk.tt_move, pk.cursor),
    decreases list.len() - pk.cursor,
{
    reveal(PickerModel::pick);
    lemma_others_by_next(list, pk.tt_move, pk.cursor);
    let turn = pk.pick::<R, B>(rules, states(k), p, list);
    if turn.mv is Some {
        lemma_quiets_handed_out::<R, B>(rules, p, states, k + 1, turn.picker, turn.list);
    }
}

/// The moves handed out from the quiet stage on.
pub open spec fn quiets_from<R: Rules, B: Backend>(
    rules: &R,
    p: PositionModel,
    s: B::State,
    pk: PickerModel,
) -> Seq<Move> {
    if pk.skip_quiets {
        Seq::empty()
    } else {
        others(ranked_quiets::<R, B>(rules, s, p, pk.tt_move), pk.tt_move, 0)
    }
}

proof fn lemma_noisies_handed_out<R: Rules, B: Backend>(
    rules: &R,
    p: PositionModel,
    states: spec_fn(int) -> B::State,
    k: int,
    pk: PickerModel,
    list: Seq<ScoredMove>,
)
    requires
        pk.stage is YieldNoisies,
        0 <= pk.cursor <= list.len(),
    ensures
        ({
            let noisies = others(list, pk.tt_move, pk.cursor);
            handed_out::<R, B>(rules, p, states, k, pk, list) == noisies + quiets_from::<R, B>(
                rules,
                p,
                states(k + noisies.len()),
                pk,
            )
        }),
    decreases list.len() - pk.cursor,
{
    reveal(PickerModel::pick);
    lemma_others_by_next(list, pk.tt_move, pk.cursor);
    let turn = pk.pick::<R, B>(rules, states(k), p, list);
    let i = next_other(list, pk.tt_move, pk.cursor);
    let noisies = others(list, pk.tt_move, pk.cursor);
    if i < list.len() {
        lemma_noisies_handed_out::<R, B>(rules, p, states, k + 1, turn.picker, turn.list);
        let rest = others(list, pk.tt_move, i + 1);
        assert(quiets_from::<R, B>(rules, p, states(k + 1 + rest.len()), turn.picker)
            == quiets_from::<R, B>(rules, p, states(k + noisies.len()), pk));
        assert(handed_out::<R, B>(rules, p, states, k, pk, list) =~= noisies + quiets_from::<R, B>(
            rules,
            p,
            states(k + noisies.len()),
            pk,
        ));
    } else if pk.skip_quiets {
        assert(noisies + quiets_from::<R, B>(rules, p, states(k), pk) =~= Seq::empty());
    } else {
        let quiets = ranked_quiets::<R, B>(rules, states(k), p, pk.tt_move);
        let all = list + quiets;
        let there = PickerModel { stage: Stage::YieldQuiets, cursor: list.len() as int, ..pk };
        lemma_others_by_next(all, pk.tt_move, list.len() as int);
        lemma_others_of_tail(list, quiets, pk.tt_move, 0);
        let first = there.yielded(all);
        if first.mv is Some {
            lemma_quiets_handed_out::<R, B>(rules, p, states, k + 1, first.picker, all);
        }
        assert(handed_out::<R, B>(rules, p, states, k, pk, list) =~= noisies + quiets_from::<R, B>(
            rules,
            p,
            states(k),
            pk,
        ));
    }
}

/// A new picker hands out the move from the table if it is legal, then the other
/// noisy moves, the best first, then the other quiet moves, the best first, unless
/// quiet moves are left out. Each kind is ranked by the state of the surroundings
/// when the picker comes to it.
pub proof fn order_of_moves<R: Rules, B: Backend>(
    rules: &R,
    p: PositionModel,
    states: spec_fn(int) -> B::State,
    pk: PickerModel,
)
    requires
        pk.stage is TTMove,
        pk.cursor == 0,
    ensures
        ({
            let first = table_move(rules, p, pk.tt_move);
            let noisies = others(
                ranked_noisies::<R, B>(rules, states(first.len() as int), p, pk.tt_move),
                pk.tt_move,
                0,
            );
            let quiets = quiets_from::<R, B>(
                rules,
                p,
                states((first.len() + noisies.len()) as int),
                pk,
            );
            handed_out::<R, B>(rules, p, states, 0, pk, Seq::empty()) == first + noisies + quiets
        }),
{
    reveal(PickerModel::pick);
    let empty = Seq::<ScoredMove>::empty();
    let first = table_move(rules, p, pk.tt_move);
    let k = first.len() as int;
    let list = ranked_noisies::<R, B>(rules, states(k), p, pk.tt_move);
    assert(empty + list =~= list);
    let noisies = others(list, pk.tt_move, 0);
    let yielding = pk.at(Stage::YieldNoisies);
    lemma_noisies_handed_out::<R, B>(rules, p, states, k, yielding, list);
    let generating = pk.at(Stage::GenerateNoisies);
    assert(generating.pick::<R, B>(rules, states(k), p, empty) == yielding.pick::<R, B>(
        rules,
        states(k),
        p,
        list,
    ));
    assert(handed_out::<R, B>(rules, p, states, k, generating, empty) == handed_out::<R, B>(
        rules,
        p,
        states,
        k,
        yielding,
        list,
    ));
    let quiets = quiets_from::<R, B>(rules, p, states(k + noisies.len()), pk);
    assert(quiets == quiets_from::<R, B>(rules, p, states(k + noisies.len()), yielding));
    if k == 0 {
        assert(pk.pick::<R, B>(rules, states(0), p, empty) == generating.pick::<R, B>(
            rules,
            states(0),
            p,
            empty,
        ));
    }
    assert(handed_out::<R, B>(rules, p, states, 0, pk, empty) =~= first + noisies + quiets);
}

proof fn lemma_others_members(list: Seq<ScoredMove>, tt_move: Option<Move>, cursor: int, mv: Move)
    requires
        0 <= cursor <= list.len(),
    ensures
        others(list, tt_move, cursor).contains(mv) <==> tt_move != Some(mv) && exists|i: int|
            cursor <= i < list.len() && (#[trigger] list[i]).0 == mv,
    decreases list.len() - cursor,
{
    if cursor < list.len() {
        lemma_others_members(list, tt_move, cursor + 1, mv);
        let rest = others(list, tt_move, cursor + 1);
        if tt_move != Some(list[cursor].0) {
            let here = seq![list[cursor].0];
            if rest.contains(mv) {
                let k = choose|k: int| 0 <= k < rest.len() && rest[k] == mv;
                assert((here + rest)[k + 1] == mv);
            }
            if list[cursor].0 == mv {
                assert((here + rest)[0] == mv);
            }
            if (here + rest).contains(mv) {
                let k = choose|k: int| 0 <= k < (here + rest).len() && (here + rest)[k] == mv;
                if k > 0 {
                    assert(rest[k - 1] == mv);
                }
            }
        }
    }
}

/// A move stands among the ranked moves of a kind if and only if the rules list it.
pub proof fn lemma_ranked_members<R: Rules, B: Backend>(
    filter: MoveFilter,
    rules: &R,
    s: B::State,
    p: PositionModel,
    tt_move: Option<Move>,
    mv: Move,
)
    ensures
        (exists|i: int|
            0 <= i < ranked_moves::<R, B>(filter, rules, s, p, tt_move).len() && (
            #[trigger] ranked_moves::<R, B>(filter, rules, s, p, tt_move)[i]).0 == mv)
            <==> rules.moves(p.board(), filter).contains(mv),
{
    let moves = rules.moves(p.board(), filter);
    let scored = moves_scored::<B>(filter, s, p, tt_move, unscored(moves));
    let list = ranked_moves::<R, B>(filter, rules, s, p, tt_move);
    if moves.contains(mv) {
        let k = choose|k: int| 0 <= k < moves.len() && moves[k] == mv;
        assert(scored[k].0 == mv);
        ranking_moves_only(scored, scored[k]);
        assert(scored.contains(scored[k]));
        let i = choose|i: int| 0 <= i < list.len() && list[i] == scored[k];
        assert(list[i].0 == mv);
    }
    if exists|i: int| 0 <= i < list.len() && (#[trigger] list[i]).0 == mv {
        let i = choose|i: int| 0 <= i < list.len() && (#[trigger] list[i]).0 == mv;
        ranking_moves_only(scored, list[i]);
        assert(list.contains(list[i]));
        let k = choose|k: int| 0 <= k < scored.len() && scored[k] == list[i];
        assert(moves[k] == mv);
    }
}

/// A new picker hands out every legal move and nothing else; one that leaves quiet
/// moves out hands out every noisy move, and besides those at most the move from
/// the table.
pub proof fn every_legal_move_is_handed_out<R: Rules, B: Backend>(
    rules: &R,
    p: PositionModel,
    states: spec_fn(int) -> B::State,
    pk: PickerModel,
    mv: Move,
)
    requires
        pk.stage is TTMove,
        pk.cursor == 0,
    ensures
        handed_out::<R, B>(rules, p, states, 0, pk, Seq::empty()).contains(
            mv,
        ) <==> if pk.skip_quiets {
            rules.moves(p.board(), MoveFilter::Noisy).contains(mv) || (pk.tt_move == Some(mv)
                && legal(rules, p.board(), mv))
        } else {
            legal(rules, p.board(), mv)
        },
{
    order_of_moves::<R, B>(rules, p, states, pk);
    let first = table_move(rules, p, pk.tt_move);
    let s1 = states(first.len() as int);
    let noisy_list = ranked_noisies::<R, B>(rules, s1, p, pk.tt_move);
    let noisies = others(noisy_list, pk.tt_move, 0);
    let s2 = states((first.len() + noisies.len()) as int);
    let quiets = quiets_from::<R, B>(rules, p, s2, pk);
    let quiet_list = ranked_quiets::<R, B>(rules, s2, p, pk.tt_move);
    lemma_others_members(noisy_list, pk.tt_move, 0, mv);
    lemma_others_members(quiet_list, pk.tt_move, 0, mv);
    lemma_ranked_members::<R, B>(MoveFilter::Noisy, rules, s1, p, pk.tt_move, mv);
    lemma_ranked_members::<R, B>(MoveFilter::Quiet, rules, s2, p, pk.tt_move, mv);
    lemma_joined(first, noisies, mv);
    lemma_joined(first + noisies, quiets, mv);
    if first.len() > 0 {
        assert(first.contains(mv) <==> pk.tt_move == Some(mv)) by {
            assert(first[0] == pk.tt_move->0);
        }
    }
}

proof fn lemma_joined(a: Seq<Move>, b: Seq<Move>, mv: Move)
    ensures
        (a + b).contains(mv) <==> a.contains(mv) || b.contains(mv),
{
    if a.contains(mv) {
        let k = choose|k: int| 0 <= k < a.len() && a[k] == mv;
        assert((a + b)[k] == mv);
    }
    if b.contains(mv) {
        let k = choose|k: int| 0 <= k < b.len() && b[k] == mv;
        assert((a + b)[a.len() + k] == mv);
    }
    if (a + b).contains(mv) {
        let k = choose|k: int| 0 <= k < (a + b).len() && (a + b)[k] == mv;
        if k < a.len() {
            assert(a[k] == mv);
        } else {
            assert(b[k - a.len()] == mv);
        }
    }
}

/// Whether no two entries hold the same move.
pub open spec fn distinct(list: Seq<ScoredMove>) -> bool {
    forall|i: int, j: int|
        0 <= i < j < list.len() ==> (#[trigger] list[i]).0 != (#[trigger] list[j]).0
}

proof fn lemma_ranked_distinct(list: Seq<ScoredMove>)
    requires
        distinct(list),
    ensures
        distinct(ranked(list)),
{
    let r = ranked(list);
    ranking_keeps_every_move(list);
    assert(list.no_duplicates());
    list.lemma_multiset_has_no_duplicates();
    assert forall|x: ScoredMove| r.to_multiset().contains(x) implies r.to_multiset().count(x)
        == 1 by {
        assert(list.to_multiset().contains(x));
    }
    r.lemma_multiset_has_no_duplicates_conv();
    assert forall|i: int, j: int| 0 <= i < j < r.len() implies (#[trigger] r[i]).0 != (
    #[trigger] r[j]).0 by {
        ranking_moves_only(list, r[i]);
        ranking_moves_only(list, r[j]);
        assert(r.contains(r[i]) && r.contains(r[j]));
        let a = choose|a: int| 0 <= a < list.len() && list[a] == r[i];
        let b = choose|b: int| 0 <= b < list.len() && list[b] == r[j];
        if r[i].0 == r[j].0 {
            assert(a == b);
        }
    }
}

pub proof fn lemma_ranked_moves_distinct<R: Rules, B: Backend>(
    filter: MoveFilter,
    rules: &R,
    s: B::State,
    p: PositionModel,
    tt_move: Option<Move>,
)
    requires
        rules.moves(p.board(), filter).no_duplicates(),
    ensures
        distinct(ranked_moves::<R, B>(filter, rules, s, p, tt_move)),
{
    let moves = rules.moves(p.board(), filter);
    let scored = moves_scored::<B>(filter, s, p, tt_move, unscored(moves));
    assert forall|i: int, j: int| 0 <= i < j < scored.len() implies (#[trigger] scored[i]).0 != (
    #[trigger] scored[j]).0 by {
        assert(scored[i].0 == moves[i] && scored[j].0 == moves[j]);
    }
    lemma_ranked_distinct(scored);
}

proof fn lemma_others_distinct(list: Seq<ScoredMove>, tt_move: Option<Move>, cursor: int)
    requires
        distinct(list),
        0 <= cursor <= list.len(),
    ensures
        others(list, tt_move, cursor).no_duplicates(),
    decreases list.len() - cursor,
{
    if cursor < list.len() {
        lemma_others_distinct(list, tt_move, cursor + 1);
        if tt_move != Some(list[cursor].0) {
            let rest = others(list, tt_move, cursor + 1);
            lemma_others_members(list, tt_move, cursor + 1, list[cursor].0);
            assert(!rest.contains(list[cursor].0));
            let all = seq![list[cursor].0] + rest;
            assert forall|i: int, j: int| 0 <= i < j < all.len() implies all[i] != all[j] by {
                if i == 0 {
                    assert(rest.contains(rest[j - 1]));
                }
            }
        }
    }
}

proof fn lemma_disjoint_join(a: Seq<Move>, b: Seq<Move>)
    requires
        a.no_duplicates(),
        b.no_duplicates(),
        forall|mv: Move| !(#[trigger] a.contains(mv) && b.contains(mv)),
    ensures
        (a + b).no_duplicates(),
{
    assert forall|i: int, j: int| 0 <= i < j < (a + b).len() implies (a + b)[i] != (a + b)[j] by {
        if i < a.len() && j >= a.len() {
            assert(a.contains(a[i]));
            assert(b.contains(b[j - a.len()]));
        }
    }
}

/// If the rules list no move twice, a new picker hands out no move twice; the move
/// from the table is not handed out again.
pub proof fn no_move_is_handed_out_twice<R: Rules, B: Backend>(
    rules: &R,
    p: PositionModel,
    states: spec_fn(int) -> B::State,
    pk: PickerModel,
)
    requires
        pk.stage is TTMove,
        pk.cursor == 0,
        rules.moves(p.board(), MoveFilter::Noisy).no_duplicates(),
        rules.moves(p.board(), MoveFilter::Quiet).no_duplicates(),
    ensures
        handed_out::<R, B>(rules, p, states, 0, pk, Seq::empty()).no_duplicates(),
{
    order_of_moves::<R, B>(rules, p, states, pk);
    let first = table_move(rules, p, pk.tt_move);
    let s1 = states(first.len() as int);
    let noisy_list = ranked_noisies::<R, B>(rules, s1, p, pk.tt_move);
    let noisies = others(noisy_list, pk.tt_move, 0);
    let s2 = states((first.len() + noisies.len()) as int);
    let quiets = quiets_from::<R, B>(rules, p, s2, pk);
    let quiet_list = ranked_quiets::<R, B>(rules, s2, p, pk.tt_move);
    lemma_ranked_moves_distinct::<R, B>(MoveFilter::Noisy, rules, s1, p, pk.tt_move);
    lemma_ranked_moves_distinct::<R, B>(MoveFilter::Quiet, rules, s2, p, pk.tt_move);
    lemma_others_distinct(noisy_list, pk.tt_move, 0);
    lemma_others_distinct(quiet_list, pk.tt_move, 0);
    assert forall|mv: Move| !(#[trigger] first.contains(mv) && noisies.contains(mv)) by {
        lemma_others_members(noisy_list, pk.tt_move, 0, mv);
    }
    lemma_disjoint_join(first, noisies);
    assert forall|mv: Move| !(#[trigger] (first + noisies).contains(mv) && quiets.contains(
        mv,
    )) by {
        lemma_joined(first, noisies, mv);
        lemma_others_members(noisy_list, pk.tt_move, 0, mv);
        lemma_others_members(quiet_list, pk.tt_move, 0, mv);
        lemma_ranked_members::<R, B>(MoveFilter::Noisy, rules, s1, p, pk.tt_move, mv);
        lemma_ranked_members::<R, B>(MoveFilter::Quiet, rules, s2, p, pk.tt_move, mv);
        if rules.moves(p.board(), MoveFilter::Noisy).contains(mv) && rules.moves(
            p.board(),
            MoveFilter::Quiet,
        ).contains(mv) {
            rules.moves_are_of_their_kind(p.board(), MoveFilter::Noisy, mv);
            rules.moves_are_of_their_kind(p.board(), MoveFilter::Quiet, mv);
        }
    }
    lemma_disjoint_join(first + noisies, quiets);
}

} // verus!
