//! A search to a depth without pruning finds the value of the game to that depth,
//! and leaves a line that reaches it.

use crate::board::board::BoardModel;
use crate::common::moves::Move;
use crate::common::types::{square_numbers_are_exact, Square};
use crate::position::PositionModel;
use crate::rules::{has_moves, legal, MoveFilter, Rules};
use crate::score::{INFINITE, MATE, MATE_BOUND};
use crate::search::backend::{Backend, TTFlag};
use crate::search::frames::{lemma_move_keeps, search_keeps_earlier_plies};
use crate::search::model::{
    after_must_stop, all_searched, concluded, consulted, consulted_duckless, entered, fresh_tally,
    move_searched, moves_searched, must_stop, node_searched, node_unfolds, raised, reach, route,
    searched, static_eval_of, weighed, Exhausted, NodeType, Searched, Step, Tally, World,
};
use crate::search::move_picker::{ranked_moves, ranked_moves_are_legal, PickerModel, Stage};
use crate::search::move_stack::ScoredMove;
use crate::search::negamax::{
    final_score, gives_the_king_away, kept_tame, lemma_quiet, nothing_to_skip, quiet_line,
    quiet_value, quiet_values_are_bounded, steady, tame, tells,
};
use crate::search::picking::{lemma_ranked_members, lemma_ranked_moves_distinct};
use crate::search::MAX_PLY;
use vstd::prelude::*;

verus! {

/// What a side reaches in a number of moves, and after them by noisy moves alone,
/// against every reply. A side without a move wins.
pub open spec fn value<R: Rules>(
    rules: &R,
    e: spec_fn(BoardModel) -> int,
    p: PositionModel,
    at_root: bool,
    depth: int,
    ply: int,
) -> int
    decreases reach(depth), 2nat, 0nat,
{
    let moves = rules.moves(p.board(), MoveFilter::Noisy) + rules.moves(
        p.board(),
        MoveFilter::Quiet,
    );
    if depth <= 0 {
        quiet_value(rules, e, p, ply)
    } else if final_score(rules, p, at_root, ply) is Some {
        final_score(rules, p, at_root, ply)->0
    } else if moves.len() == 0 {
        MATE - ply
    } else {
        best_worth(rules, e, p, depth, ply, moves)
    }
}

/// The most that one of the given moves leaves.
pub open spec fn best_worth<R: Rules>(
    rules: &R,
    e: spec_fn(BoardModel) -> int,
    p: PositionModel,
    depth: int,
    ply: int,
    moves: Seq<Move>,
) -> int
    decreases reach(depth), 1nat, moves.len(),
    when depth > 0
{
    let last = worth(rules, e, p, depth, ply, moves.last());
    if moves.len() <= 1 {
        last
    } else {
        let rest = best_worth(rules, e, p, depth, ply, moves.drop_last());
        if last > rest {
            last
        } else {
            rest
        }
    }
}

/// What a move leaves.
pub open spec fn worth<R: Rules>(
    rules: &R,
    e: spec_fn(BoardModel) -> int,
    p: PositionModel,
    depth: int,
    ply: int,
    mv: Move,
) -> int
    decreases reach(depth), 0nat, 0nat,
    when depth > 0
{
    if gives_the_king_away(rules, p, mv) {
        ply + 2 - MATE
    } else {
        -value(rules, e, p.after_move(rules, mv), false, depth - 1, ply + 1)
    }
}

/// Whether a line reaches the value: each of its moves is as good as any, and it
/// goes on to the depth unless the game is over before.
pub open spec fn best_line<R: Rules>(
    rules: &R,
    e: spec_fn(BoardModel) -> int,
    p: PositionModel,
    at_root: bool,
    depth: int,
    ply: int,
    line: Seq<Move>,
) -> bool
    decreases line.len(),
{
    if depth <= 0 {
        quiet_line(rules, e, p, ply, line)
    } else if final_score(rules, p, at_root, ply) is Some || !has_moves(rules, p.board()) {
        line.len() == 0
    } else {
        &&& line.len() > 0
        &&& legal(rules, p.board(), line[0])
        &&& value(rules, e, p, at_root, depth, ply) == worth(rules, e, p, depth, ply, line[0])
        &&& if gives_the_king_away(rules, p, line[0]) {
            line.len() == 1
        } else {
            best_line(
                rules,
                e,
                p.after_move(rules, line[0]),
                false,
                depth - 1,
                ply + 1,
                line.drop_first(),
            )
        }
    }
}

/// Whether the game is over at the end of a line: a king is gone or given away, it
/// is a draw, or there is no move.
pub open spec fn ends_the_game<R: Rules>(
    rules: &R,
    p: PositionModel,
    at_root: bool,
    line: Seq<Move>,
) -> bool
    decreases line.len(),
{
    if line.len() == 0 {
        final_score(rules, p, at_root, 0) is Some || !has_moves(rules, p.board())
    } else {
        ||| line.len() == 1 && gives_the_king_away(rules, p, line[0])
        ||| ends_the_game(rules, p.after_move(rules, line[0]), false, line.drop_first())
    }
}

/// A line that reaches the value to a depth has as many moves as the depth, unless
/// it ends the game before.
pub proof fn a_best_line_goes_to_the_depth<R: Rules>(
    rules: &R,
    e: spec_fn(BoardModel) -> int,
    p: PositionModel,
    at_root: bool,
    depth: int,
    ply: int,
    line: Seq<Move>,
)
    requires
        best_line(rules, e, p, at_root, depth, ply, line),
    ensures
        line.len() >= depth || ends_the_game(rules, p, at_root, line),
    decreases line.len(),
{
    if depth > 0 && line.len() > 0 && !gives_the_king_away(rules, p, line[0]) {
        a_best_line_goes_to_the_depth(
            rules,
            e,
            p.after_move(rules, line[0]),
            false,
            depth - 1,
            ply + 1,
            line.drop_first(),
        );
    }
}

proof fn lemma_best_worth<R: Rules>(
    rules: &R,
    e: spec_fn(BoardModel) -> int,
    p: PositionModel,
    depth: int,
    ply: int,
    moves: Seq<Move>,
)
    requires
        depth > 0,
        moves.len() > 0,
    ensures
        ({
            let v = best_worth(rules, e, p, depth, ply, moves);
            &&& forall|i: int|
                0 <= i < moves.len() ==> v >= worth(rules, e, p, depth, ply, #[trigger] moves[i])
            &&& exists|i: int|
                0 <= i < moves.len() && v == worth(rules, e, p, depth, ply, #[trigger] moves[i])
        }),
    decreases moves.len(),
{
    let v = best_worth(rules, e, p, depth, ply, moves);
    assert(moves[moves.len() - 1] == moves.last());
    if moves.len() > 1 {
        let shorter = moves.drop_last();
        lemma_best_worth(rules, e, p, depth, ply, shorter);
        let rest = best_worth(rules, e, p, depth, ply, shorter);
        assert forall|i: int| 0 <= i < moves.len() implies v >= worth(
            rules,
            e,
            p,
            depth,
            ply,
            #[trigger] moves[i],
        ) by {
            if i < shorter.len() {
                assert(shorter[i] == moves[i]);
            }
        }
        let k = choose|k: int|
            0 <= k < shorter.len() && rest == worth(rules, e, p, depth, ply, #[trigger] shorter[k]);
        assert(moves[k] == shorter[k]);
    }
}

proof fn lemma_all_moves<R: Rules>(rules: &R, b: BoardModel, mv: Move)
    ensures
        ({
            let moves = rules.moves(b, MoveFilter::Noisy) + rules.moves(b, MoveFilter::Quiet);
            &&& legal(rules, b, mv) <==> exists|i: int| 0 <= i < moves.len() && moves[i] == mv
            &&& has_moves(rules, b) <==> moves.len() > 0
        }),
{
    let noisies = rules.moves(b, MoveFilter::Noisy);
    let quiets = rules.moves(b, MoveFilter::Quiet);
    let moves = noisies + quiets;
    if noisies.contains(mv) {
        let i = choose|i: int| 0 <= i < noisies.len() && noisies[i] == mv;
        assert(moves[i] == mv);
    }
    if quiets.contains(mv) {
        let i = choose|i: int| 0 <= i < quiets.len() && quiets[i] == mv;
        assert(moves[noisies.len() + i] == mv);
    }
    if exists|i: int| 0 <= i < moves.len() && moves[i] == mv {
        let i = choose|i: int| 0 <= i < moves.len() && moves[i] == mv;
        if i < noisies.len() {
            assert(noisies[i] == mv);
        } else {
            assert(quiets[i - noisies.len()] == mv);
        }
    }
}

/// Values lie between a loss and a win at once.
pub proof fn values_are_bounded<R: Rules>(
    rules: &R,
    e: spec_fn(BoardModel) -> int,
    p: PositionModel,
    at_root: bool,
    depth: int,
    ply: int,
)
    requires
        tame(e),
        0 <= ply,
        ply + reach(depth) <= MATE,
    ensures
        -MATE <= value(rules, e, p, at_root, depth, ply) <= MATE,
    decreases reach(depth),
{
    if depth <= 0 {
        quiet_values_are_bounded(rules, e, p, ply);
    } else if final_score(rules, p, at_root, ply) is None {
        let moves = rules.moves(p.board(), MoveFilter::Noisy) + rules.moves(
            p.board(),
            MoveFilter::Quiet,
        );
        if moves.len() > 0 {
            lemma_best_worth(rules, e, p, depth, ply, moves);
            let k = choose|k: int|
                0 <= k < moves.len() && best_worth(rules, e, p, depth, ply, moves) == worth(
                    rules,
                    e,
                    p,
                    depth,
                    ply,
                    #[trigger] moves[k],
                );
            values_are_bounded(
                rules,
                e,
                p.after_move(rules, moves[k]),
                false,
                depth - 1,
                ply + 1,
            );
        }
    }
}

// The conditions.

/// Whether nothing that a search tells its surroundings changes what they answer:
/// the table stays empty, and the corrected evaluation stays `e`.
pub open spec fn unmoved<B: Backend>(
    calm: spec_fn(B::State) -> bool,
    e: spec_fn(BoardModel) -> int,
) -> bool {
    &&& steady::<B>(calm, e)
    &&& forall|s: B::State, key: u64, mv: Option<Move>, score: int, depth: int, flag: TTFlag|
        calm(s) ==> calm(#[trigger] B::after_insert(s, key, mv, score, depth, flag))
    &&& forall|
        s: B::State,
        p: PositionModel,
        depth: int,
        mv: Move,
        quiets: Seq<Move>,
        noisies: Seq<Move>,
    |
        calm(s) ==> calm(#[trigger] B::after_update(s, p, depth, mv, quiets, noisies))
    &&& forall|s: B::State, b: BoardModel, depth: int, score: int, eval: int|
        calm(s) ==> calm(#[trigger] B::after_update_corr(s, b, depth, score, eval))
}

/// Whether a search has no occasion to prune or reduce: the limits on depth leave
/// none, and a position has few moves, each from and to squares of its own.
pub open spec fn unpruned<R: Rules, B: Backend>(rules: &R) -> bool {
    &&& nothing_to_skip::<R, B>(rules, NodeType::NonPV)
    &&& B::rfp_reach() <= 0
    &&& B::nmr_slack() > 2 * INFINITE
    &&& forall|quiet: bool| #[trigger] B::ldp_reach(quiet) <= 0
    &&& B::dcp_reach() <= 0
    &&& forall|b: BoardModel|
        (#[trigger] rules.moves(b, MoveFilter::Noisy)).no_duplicates() && rules.moves(
            b,
            MoveFilter::Quiet,
        ).no_duplicates() && rules.moves(b, MoveFilter::Noisy).len() + rules.moves(
            b,
            MoveFilter::Quiet,
        ).len() <= 7
    &&& forall|b: BoardModel, x: Move, y: Move| #[trigger]
        legal(rules, b, x) && #[trigger] legal(rules, b, y) && x.src == y.src && x.dest == y.dest
            ==> x == y
}

// The moves in the order they are handed out.

/// Whether a move is among the first of a list.
spec fn among(list: Seq<ScoredMove>, n: int, mv: Move) -> bool {
    exists|i: int| 0 <= i < n && (#[trigger] list[i]).0 == mv
}

/// What a picker without a table move has listed so far.
spec fn listed<R: Rules>(
    rules: &R,
    b: BoardModel,
    pk: PickerModel,
    list: Seq<ScoredMove>,
) -> bool {
    let noisies = rules.moves(b, MoveFilter::Noisy);
    let quiets = rules.moves(b, MoveFilter::Quiet);
    &&& pk.tt_move is None
    &&& !pk.skip_quiets
    &&& 0 <= pk.cursor <= list.len()
    &&& forall|i: int| 0 <= i < list.len() ==> legal(rules, b, (#[trigger] list[i]).0)
    &&& forall|i: int, j: int|
        0 <= i < j < list.len() ==> (#[trigger] list[i]).0 != (#[trigger] list[j]).0
    &&& match pk.stage {
        Stage::TTMove => list.len() == 0,
        Stage::YieldNoisies => {
            &&& list.len() == noisies.len()
            &&& forall|mv: Move|
                noisies.contains(mv) <==> #[trigger] among(list, list.len() as int, mv)
        },
        Stage::YieldQuiets => {
            &&& list.len() == noisies.len() + quiets.len()
            &&& forall|mv: Move|
                legal(rules, b, mv) <==> #[trigger] among(list, list.len() as int, mv)
        },
        Stage::Finished => {
            &&& pk.cursor == list.len()
            &&& list.len() == noisies.len() + quiets.len()
            &&& forall|mv: Move|
                legal(rules, b, mv) <==> #[trigger] among(list, list.len() as int, mv)
        },
        _ => false,
    }
}

proof fn lemma_ranked_list<R: Rules, B: Backend>(
    filter: MoveFilter,
    rules: &R,
    s: B::State,
    p: PositionModel,
)
    requires
        rules.moves(p.board(), filter).no_duplicates(),
    ensures
        ({
            let list = ranked_moves::<R, B>(filter, rules, s, p, None);
            let moves = rules.moves(p.board(), filter);
            &&& list.len() == moves.len()
            &&& forall|mv: Move| moves.contains(mv) <==> #[trigger] among(list, list.len() as int, mv)
            &&& forall|i: int| 0 <= i < list.len() ==> moves.contains((#[trigger] list[i]).0)
            &&& forall|i: int, j: int|
                0 <= i < j < list.len() ==> (#[trigger] list[i]).0 != (#[trigger] list[j]).0
        }),
{
    let list = ranked_moves::<R, B>(filter, rules, s, p, None);
    let moves = rules.moves(p.board(), filter);
    ranked_moves_are_legal::<R, B>(filter, rules, s, p, None);
    lemma_ranked_moves_distinct::<R, B>(filter, rules, s, p, None);
    assert forall|mv: Move| moves.contains(mv) <==> #[trigger] among(list, list.len() as int, mv) by {
        lemma_ranked_members::<R, B>(filter, rules, s, p, None, mv);
    }
    assert forall|i: int| 0 <= i < list.len() implies moves.contains((#[trigger] list[i]).0) by {
        lemma_ranked_members::<R, B>(filter, rules, s, p, None, list[i].0);
    }
}

proof fn lemma_quiets_join<R: Rules, B: Backend>(
    rules: &R,
    s: B::State,
    p: PositionModel,
    list: Seq<ScoredMove>,
)
    requires
        rules.moves(p.board(), MoveFilter::Quiet).no_duplicates(),
        list.len() == rules.moves(p.board(), MoveFilter::Noisy).len(),
        forall|i: int| 0 <= i < list.len() ==> legal(rules, p.board(), (#[trigger] list[i]).0),
        forall|i: int, j: int|
            0 <= i < j < list.len() ==> (#[trigger] list[i]).0 != (#[trigger] list[j]).0,
        forall|mv: Move|
            rules.moves(p.board(), MoveFilter::Noisy).contains(mv) <==> #[trigger] among(
                list,
                list.len() as int,
                mv,
            ),
    ensures
        ({
            let pk = PickerModel {
                stage: Stage::YieldQuiets,
                tt_move: None,
                skip_quiets: false,
                cursor: list.len() as int,
            };
            listed(
                rules,
                p.board(),
                pk,
                list + ranked_moves::<R, B>(MoveFilter::Quiet, rules, s, p, None),
            )
        }),
{
    let b = p.board();
    let quiets = ranked_moves::<R, B>(MoveFilter::Quiet, rules, s, p, None);
    let full = list + quiets;
    let n = list.len() as int;
    lemma_ranked_list::<R, B>(MoveFilter::Quiet, rules, s, p);
    assert forall|mv: Move|
        legal(rules, b, mv) <==> #[trigger] among(full, full.len() as int, mv) by {
        if among(list, n, mv) {
            let i = choose|i: int| 0 <= i < n && (#[trigger] list[i]).0 == mv;
            assert(full[i].0 == mv);
        }
        if among(quiets, quiets.len() as int, mv) {
            let i = choose|i: int| 0 <= i < quiets.len() && (#[trigger] quiets[i]).0 == mv;
            assert(full[n + i].0 == mv);
        }
        if among(full, full.len() as int, mv) {
            let i = choose|i: int| 0 <= i < full.len() && (#[trigger] full[i]).0 == mv;
            if i < n {
                assert(list[i].0 == mv);
            } else {
                assert(quiets[i - n].0 == mv);
            }
        }
        assert(legal(rules, b, mv) <==> rules.moves(b, MoveFilter::Noisy).contains(mv)
            || rules.moves(b, MoveFilter::Quiet).contains(mv));
        assert(rules.moves(b, MoveFilter::Noisy).contains(mv) <==> among(list, n, mv));
    }
    assert forall|i: int| 0 <= i < full.len() implies legal(rules, b, (#[trigger] full[i]).0) by {
        assert(among(full, full.len() as int, full[i].0));
    }
    assert forall|i: int, j: int| 0 <= i < j < full.len() implies (#[trigger] full[i]).0 != (
    #[trigger] full[j]).0 by {
        if i < n && j >= n {
            assert(among(list, n, list[i].0));
            assert(rules.moves(b, MoveFilter::Noisy).contains(list[i].0));
            assert(rules.moves(b, MoveFilter::Quiet).contains(quiets[j - n].0));
            rules.moves_are_of_their_kind(b, MoveFilter::Noisy, list[i].0);
            rules.moves_are_of_their_kind(b, MoveFilter::Quiet, quiets[j - n].0);
        } else if j < n {
            assert(list[i].0 != list[j].0);
        } else {
            assert(quiets[i - n].0 != quiets[j - n].0);
        }
    }
}

proof fn lemma_pick_goes_through<R: Rules, B: Backend>(
    rules: &R,
    s: B::State,
    p: PositionModel,
    pk: PickerModel,
    list: Seq<ScoredMove>,
)
    requires
        unpruned::<R, B>(rules),
        listed(rules, p.board(), pk, list),
    ensures
        ({
            let turn = pk.pick::<R, B>(rules, s, p, list);
            &&& listed(rules, p.board(), turn.picker, turn.list)
            &&& list.len() <= turn.list.len()
            &&& forall|i: int| 0 <= i < list.len() ==> #[trigger] turn.list[i] == list[i]
            &&& turn.mv matches Some(mv) ==> turn.picker.cursor == pk.cursor + 1
                && turn.list[pk.cursor].0 == mv
            &&& turn.mv is None ==> turn.picker.cursor == pk.cursor && pk.cursor
                == turn.list.len() && turn.picker.stage is Finished
        }),
{
    reveal(PickerModel::pick);
    let b = p.board();
    assert(rules.moves(b, MoveFilter::Noisy).no_duplicates());
    if pk.stage is TTMove {
        let noisies = ranked_moves::<R, B>(MoveFilter::Noisy, rules, s, p, None);
        assert(list + noisies =~= noisies);
        lemma_ranked_list::<R, B>(MoveFilter::Noisy, rules, s, p);
        assert forall|i: int| 0 <= i < noisies.len() implies legal(
            rules,
            b,
            (#[trigger] noisies[i]).0,
        ) by {
            assert(rules.moves(b, MoveFilter::Noisy).contains(noisies[i].0));
        }
        if noisies.len() == 0 {
            lemma_quiets_join::<R, B>(rules, s, p, noisies);
        }
    } else if pk.stage is YieldNoisies && pk.cursor == list.len() {
        lemma_quiets_join::<R, B>(rules, s, p, list);
    }
}

// The search.

/// Whether the node's notes speak only of moves it has been through.
spec fn noted_of_the_past(tally: Tally) -> bool {
    &&& tally.duck_refutations.len() == 4096
    &&& tally.duck_safety.len() == 64
    &&& tally.ducks_by_move.len() == 4096
    &&& tally.duck_counts.len() == 64
    &&& forall|src: Square, dest: Square|
        (#[trigger] tally.duck_refutations[src.number() * 64 + dest.number()])
            == Set::<Square>::empty() || past_way(tally, src, dest)
    &&& forall|dest: Square|
        (#[trigger] tally.duck_safety[dest.number() as int]) matches Some(known) ==> past_way(
            tally,
            known.src,
            dest,
        )
}

/// Whether the node has been through a move from one square to another.
spec fn past_way(tally: Tally, src: Square, dest: Square) -> bool {
    exists|i: int|
        0 <= i < tally.picker.cursor && (#[trigger] tally.list[i]).0.src == src
            && tally.list[i].0.dest == dest
}

/// Whether a line starts with a move of the given worth and goes on as well.
spec fn worthy<R: Rules>(
    rules: &R,
    e: spec_fn(BoardModel) -> int,
    p: PositionModel,
    depth: int,
    ply: int,
    line: Seq<Move>,
    score: int,
) -> bool {
    &&& line.len() > 0
    &&& legal(rules, p.board(), line[0])
    &&& worth(rules, e, p, depth, ply, line[0]) == score
    &&& if gives_the_king_away(rules, p, line[0]) {
        line.len() == 1
    } else {
        best_line(
            rules,
            e,
            p.after_move(rules, line[0]),
            false,
            depth - 1,
            ply + 1,
            line.drop_first(),
        )
    }
}

/// What a node knows when it has been through the first of its moves.
spec fn so_far<R: Rules>(
    rules: &R,
    e: spec_fn(BoardModel) -> int,
    p: PositionModel,
    tally: Tally,
    node: NodeType,
    line: Seq<Move>,
    alpha: int,
    beta: int,
    depth: int,
    ply: int,
) -> bool {
    let best = tally.best_score->0;
    &&& listed(rules, p.board(), tally.picker, tally.list)
    &&& noted_of_the_past(tally)
    &&& tally.legal_moves == tally.picker.cursor
    &&& tally.searched_moves == tally.picker.cursor
    &&& tally.alpha < beta
    &&& tally.best_score is None <==> tally.picker.cursor == 0
    &&& tally.alpha == if tally.best_score is Some && best > alpha {
        best
    } else {
        alpha
    }
    &&& forall|i: int|
        0 <= i < tally.picker.cursor ==> worth(rules, e, p, depth, ply, (#[trigger] tally.list[i]).0)
            <= best
    &&& tally.best_score is Some && best > alpha ==> exists|i: int|
        0 <= i < tally.picker.cursor && worth(
            rules,
            e,
            p,
            depth,
            ply,
            (#[trigger] tally.list[i]).0,
        ) == best
    &&& node.pv() && tally.best_score is Some && best > alpha ==> worthy(
        rules,
        e,
        p,
        depth,
        ply,
        line,
        best,
    )
    &&& node.pv() && tally.best_score is None ==> line.len() == 0
}

/// What a finished search tells, unless it was stopped.
pub open spec fn told<R: Rules, B: Backend>(
    rules: &R,
    calm: spec_fn(B::State) -> bool,
    e: spec_fn(BoardModel) -> int,
    p: PositionModel,
    score: int,
    w: World<B::State>,
    node: NodeType,
    alpha: int,
    beta: int,
    depth: int,
    ply: int,
) -> bool {
    &&& calm(w.s)
    &&& w.t.stack[MAX_PLY as int].pv.len() == 0
    &&& tells(score, alpha, beta, value(rules, e, p, node is Root, depth, ply))
    &&& node.pv() && alpha < score < beta ==> best_line(
        rules,
        e,
        p,
        node is Root,
        depth,
        ply,
        w.t.stack[ply].pv,
    )
}

/// What the surroundings and the thread must be like.
spec fn set_up<R: Rules, B: Backend>(
    rules: &R,
    calm: spec_fn(B::State) -> bool,
    e: spec_fn(BoardModel) -> int,
    w: World<B::State>,
    node: NodeType,
    alpha: int,
    beta: int,
    depth: int,
    ply: int,
) -> bool {
    &&& 0 <= ply
    &&& ply + reach(depth) <= MAX_PLY
    &&& w.t.stack.len() == MAX_PLY + 1
    &&& w.t.stack[MAX_PLY as int].pv.len() == 0
    &&& calm(w.s)
    &&& unmoved::<B>(calm, e)
    &&& tame(e)
    &&& unpruned::<R, B>(rules)
    &&& -INFINITE <= alpha < beta <= INFINITE
    &&& node.pv() || alpha == beta - 1
    &&& node is Root ==> depth > 0
}

/// What the search of a move tells, unless it was stopped.
spec fn found_well<R: Rules, B: Backend>(
    rules: &R,
    calm: spec_fn(B::State) -> bool,
    e: spec_fn(BoardModel) -> int,
    p: PositionModel,
    found: Searched<B::State>,
    node: NodeType,
    alpha: int,
    beta: int,
    depth: int,
    ply: int,
    mv: Move,
) -> bool {
    found.w.t.stop || {
        &&& calm(found.w.s)
        &&& found.w.t.stack[MAX_PLY as int].pv.len() == 0
        &&& tells(found.score, alpha, beta, worth(rules, e, p, depth, ply, mv))
        &&& node.pv() && alpha < found.score < beta ==> if gives_the_king_away(rules, p, mv) {
            found.w.t.stack[ply + 1].pv.len() == 0
        } else {
            best_line(
                rules,
                e,
                p.after_move(rules, mv),
                false,
                depth - 1,
                ply + 1,
                found.w.t.stack[ply + 1].pv,
            )
        }
    }
}

proof fn lemma_move<R: Rules, B: Backend>(
    rules: &R,
    calm: spec_fn(B::State) -> bool,
    e: spec_fn(BoardModel) -> int,
    p: PositionModel,
    w: World<B::State>,
    tally: Tally,
    node: NodeType,
    beta: int,
    depth: int,
    ply: int,
    mv: Move,
)
    requires
        depth > 0,
        set_up::<R, B>(rules, calm, e, w, node, tally.alpha, beta, depth, ply),
        tally.searched_moves <= 6,
        tally.legal_moves >= 1,
        ({
            let after = rules.played(p.board(), mv);
            tally.safe(mv) == after.saving_squares(after.stm.opponent())
        }),
    ensures
        found_well::<R, B>(
            rules,
            calm,
            e,
            p,
            move_searched::<R, B>(rules, p, w, tally, node, beta, depth, ply, mv),
            node,
            tally.alpha,
            beta,
            depth,
            ply,
            mv,
        ),
    decreases reach(depth), 1nat, 0int,
{
    reveal(move_searched);
    reveal(searched);
    let after = p.after_move(rules, mv);
    if !gives_the_king_away(rules, p, mv) {
        let a = tally.alpha;
        if !node.pv() || tally.legal_moves > 1 {
            lemma_search::<R, B>(
                rules,
                calm,
                e,
                after,
                w,
                NodeType::NonPV,
                -a - 1,
                -a,
                depth - 1,
                ply + 1,
            );
            search_keeps_earlier_plies::<R, B>(
                rules,
                after,
                w,
                NodeType::NonPV,
                -a - 1,
                -a,
                depth - 1,
                ply + 1,
            );
        }
        let narrow = searched::<R, B>(
            rules,
            after,
            w,
            NodeType::NonPV,
            -a - 1,
            -a,
            depth - 1,
            ply + 1,
        );
        let w1 = if !node.pv() || tally.legal_moves > 1 {
            narrow.w
        } else {
            w
        };
        if node.pv() {
            search_keeps_earlier_plies::<R, B>(
                rules,
                after,
                w1,
                NodeType::PV,
                -beta,
                -a,
                depth - 1,
                ply + 1,
            );
            if !(w1.t.stop && tally.legal_moves > 1) {
                lemma_search::<R, B>(
                    rules,
                    calm,
                    e,
                    after,
                    w1,
                    NodeType::PV,
                    -beta,
                    -a,
                    depth - 1,
                    ply + 1,
                );
            }
        }
    }
}

/// What the end of a node's moves tells.
spec fn told_at_the_end<R: Rules, B: Backend>(
    rules: &R,
    calm: spec_fn(B::State) -> bool,
    e: spec_fn(BoardModel) -> int,
    p: PositionModel,
    end: Exhausted<B::State>,
    node: NodeType,
    alpha: int,
    beta: int,
    depth: int,
    ply: int,
) -> bool {
    if end.stopped {
        end.w.t.stop
    } else {
        &&& calm(end.w.s)
        &&& end.w.t.stack[MAX_PLY as int].pv.len() == 0
        &&& end.tally.legal_moves == 0 <==> !has_moves(rules, p.board())
        &&& has_moves(rules, p.board()) ==> told::<R, B>(
            rules,
            calm,
            e,
            p,
            end.tally.best_score->0,
            end.w,
            node,
            alpha,
            beta,
            depth,
            ply,
        )
        &&& !has_moves(rules, p.board()) && node.pv() ==> end.w.t.stack[ply].pv.len() == 0
    }
}

/// A node that has been through all its moves knows its value.
proof fn lemma_all_weighed<R: Rules, B: Backend>(
    rules: &R,
    calm: spec_fn(B::State) -> bool,
    e: spec_fn(BoardModel) -> int,
    p: PositionModel,
    w: World<B::State>,
    tally: Tally,
    next: Tally,
    node: NodeType,
    alpha: int,
    beta: int,
    depth: int,
    ply: int,
)
    requires
        depth > 0,
        set_up::<R, B>(rules, calm, e, w, node, alpha, beta, depth, ply),
        final_score(rules, p, node is Root, ply) is None,
        so_far(rules, e, p, tally, node, w.t.stack[ply].pv, alpha, beta, depth, ply),
        listed(rules, p.board(), next.picker, next.list),
        next.picker.stage is Finished,
        tally.picker.cursor == next.list.len(),
        tally.list.len() <= next.list.len(),
        forall|i: int| 0 <= i < tally.list.len() ==> #[trigger] next.list[i] == tally.list[i],
        next.best_score == tally.best_score,
        next.legal_moves == tally.legal_moves,
    ensures
        told_at_the_end::<R, B>(
            rules,
            calm,
            e,
            p,
            Exhausted { tally: next, w, stopped: false },
            node,
            alpha,
            beta,
            depth,
            ply,
        ),
{
    let b = p.board();
    let c = tally.picker.cursor;
    let best = tally.best_score->0;
    let moves = rules.moves(b, MoveFilter::Noisy) + rules.moves(b, MoveFilter::Quiet);
    assert(rules.moves(b, MoveFilter::Noisy).no_duplicates());
    lemma_all_moves(rules, b, moves[0]);
    if moves.len() > 0 {
        lemma_best_worth(rules, e, p, depth, ply, moves);
        assert forall|i: int| 0 <= i < moves.len() implies worth(
            rules,
            e,
            p,
            depth,
            ply,
            #[trigger] moves[i],
        ) <= best by {
            lemma_all_moves(rules, b, moves[i]);
            assert(among(next.list, next.list.len() as int, moves[i]));
            let k = choose|k: int|
                0 <= k < next.list.len() && (#[trigger] next.list[k]).0 == moves[i];
            assert(worth(rules, e, p, depth, ply, tally.list[k].0) <= best);
        }
        if best > alpha {
            let k = choose|k: int|
                0 <= k < c && worth(rules, e, p, depth, ply, (#[trigger] tally.list[k]).0)
                    == best;
            lemma_all_moves(rules, b, tally.list[k].0);
            let i = choose|i: int| 0 <= i < moves.len() && moves[i] == tally.list[k].0;
            assert(worth(rules, e, p, depth, ply, moves[i]) == best);
        }
    }
}

/// Of a move that a node gets to, nothing is known yet, so it is not passed over.
proof fn lemma_not_passed_over<R: Rules, B: Backend>(
    rules: &R,
    p: PositionModel,
    tally: Tally,
    next: Tally,
    node: NodeType,
    depth: int,
    improving: bool,
    mv: Move,
)
    requires
        depth > 0,
        unpruned::<R, B>(rules),
        noted_of_the_past(tally),
        listed(rules, p.board(), next.picker, next.list),
        next.picker.cursor == tally.picker.cursor + 1,
        0 <= tally.picker.cursor <= tally.list.len() <= next.list.len(),
        forall|i: int| 0 <= i < tally.list.len() ==> #[trigger] next.list[i] == tally.list[i],
        next.list[tally.picker.cursor].0 == mv,
        next.duck_refutations == tally.duck_refutations,
        next.duck_safety == tally.duck_safety,
    ensures
        ({
            let known = next.with_safety(rules, p.board(), mv);
            let after = rules.played(p.board(), mv);
            &&& known.safe(mv) == after.saving_squares(after.stm.opponent())
            &&& !next.refutes(mv)
            &&& !known.late::<B>(mv, depth, improving)
            &&& !known.crowded::<B>(mv, node, depth, improving)
            &&& legal(rules, p.board(), mv)
            &&& known.duck_safety.len() == 64
            &&& forall|i: int|
                0 <= i < 64 && i != mv.dest.number() ==> #[trigger] known.duck_safety[i]
                    == tally.duck_safety[i]
            &&& known.duck_safety[mv.dest.number() as int] matches Some(s) && s.src == mv.src
        }),
{
    let b = p.board();
    let c = tally.picker.cursor;
    assert(legal(rules, b, next.list[c].0));
    square_numbers_are_exact(mv.src, 0);
    square_numbers_are_exact(mv.dest, 0);
    square_numbers_are_exact(mv.duck, 0);
    assert(!past_way(tally, mv.src, mv.dest)) by {
        assert forall|i: int| 0 <= i < c implies !((#[trigger] tally.list[i]).0.src == mv.src
            && tally.list[i].0.dest == mv.dest) by {
            assert(next.list[i] == tally.list[i]);
            assert(next.list[i].0 != next.list[c].0);
            assert(legal(rules, b, next.list[i].0));
        }
    }
    assert(tally.duck_refutations[mv.src.number() * 64 + mv.dest.number()]
        == Set::<Square>::empty());
    assert(B::ldp_reach(!mv.flag.noisy()) <= 0);
}

/// A move's score, weighed, keeps what the node knows or ends the node.
proof fn lemma_step<R: Rules, B: Backend>(
    rules: &R,
    calm: spec_fn(B::State) -> bool,
    e: spec_fn(BoardModel) -> int,
    p: PositionModel,
    w: World<B::State>,
    tally: Tally,
    next: Tally,
    found: Searched<B::State>,
    node: NodeType,
    alpha: int,
    beta: int,
    depth: int,
    ply: int,
    mv: Move,
)
    requires
        depth > 0,
        set_up::<R, B>(rules, calm, e, w, node, alpha, beta, depth, ply),
        final_score(rules, p, node is Root, ply) is None,
        so_far(rules, e, p, tally, node, w.t.stack[ply].pv, alpha, beta, depth, ply),
        listed(rules, p.board(), next.picker, next.list),
        next == (Tally {
            picker: next.picker,
            list: next.list,
            legal_moves: (tally.legal_moves + 1) as u32,
            ..tally
        }),
        next.picker.cursor == tally.picker.cursor + 1,
        0 <= tally.picker.cursor <= tally.list.len() <= next.list.len() <= 7,
        forall|i: int| 0 <= i < tally.list.len() ==> #[trigger] next.list[i] == tally.list[i],
        next.list[tally.picker.cursor].0 == mv,
        legal(rules, p.board(), mv),
        found.w.t.stack.len() == MAX_PLY + 1,
        found.w.t.stack[ply] == w.t.stack[ply],
        found_well::<R, B>(rules, calm, e, p, found, node, tally.alpha, beta, depth, ply, mv),
        ({
            let known = next.with_safety(rules, p.board(), mv);
            &&& known.duck_safety.len() == 64
            &&& forall|i: int|
                0 <= i < 64 && i != mv.dest.number() ==> #[trigger] known.duck_safety[i]
                    == tally.duck_safety[i]
            &&& known.duck_safety[mv.dest.number() as int] matches Some(s) && s.src == mv.src
        }),
    ensures
        ({
            let counted = next.with_safety(rules, p.board(), mv).counting(mv);
            match weighed::<B>(p, counted, found, node, beta, depth, ply, mv) {
                Step::End(end) => told_at_the_end::<R, B>(
                    rules,
                    calm,
                    e,
                    p,
                    end,
                    node,
                    alpha,
                    beta,
                    depth,
                    ply,
                ),
                Step::On(tally2, w2) => {
                    &&& set_up::<R, B>(rules, calm, e, w2, node, alpha, beta, depth, ply)
                    &&& so_far(
                        rules,
                        e,
                        p,
                        tally2,
                        node,
                        w2.t.stack[ply].pv,
                        alpha,
                        beta,
                        depth,
                        ply,
                    )
                    &&& tally2.picker.cursor == tally.picker.cursor + 1
                },
            }
        }),
{
    reveal(weighed);
    let b = p.board();
    let c = tally.picker.cursor;
    let moves = rules.moves(b, MoveFilter::Noisy) + rules.moves(b, MoveFilter::Quiet);
    lemma_all_moves(rules, b, mv);
    lemma_best_worth(rules, e, p, depth, ply, moves);
    square_numbers_are_exact(mv.src, 0);
    square_numbers_are_exact(mv.dest, 0);
    square_numbers_are_exact(mv.duck, 0);
    let known = next.with_safety(rules, b, mv);
    let counted = known.counting(mv);
    let step = weighed::<B>(p, counted, found, node, beta, depth, ply, mv);
    if !found.w.t.stop {
        let t = if node is Root && counted.searched_moves == 0 {
            found.w.t.with_line(ply, mv)
        } else {
            found.w.t
        };
        let tail = found.w.t.stack[ply + 1].pv;
        assert(t.stack[ply + 1] == found.w.t.stack[ply + 1]);
        if found.score > counted.alpha && node.pv() {
            let line = seq![mv] + tail;
            assert(raised(t, mv, node, ply).stack[ply].pv == line);
            assert(line.drop_first() =~= tail);
            if found.score < beta {
                assert(worthy(rules, e, p, depth, ply, line, found.score));
            }
        }
        if found.score > counted.alpha && found.score >= beta {
            let i = choose|i: int| 0 <= i < moves.len() && moves[i] == mv;
            assert(worth(rules, e, p, depth, ply, moves[i]) >= found.score);
        } else {
            let tally2 = step->On_0;
            let w2 = step->On_1;
            lemma_counting_notes(tally, next, known, mv, t.stack[ply + 1].mv, tally2);
            assert forall|i: int| 0 <= i < c + 1 implies worth(
                rules,
                e,
                p,
                depth,
                ply,
                (#[trigger] tally2.list[i]).0,
            ) <= tally2.best_score->0 by {
                if i < c {
                    assert(tally2.list[i] == tally.list[i]);
                    assert(worth(rules, e, p, depth, ply, tally.list[i].0)
                        <= tally.best_score->0);
                }
            }
            if tally2.best_score->0 > alpha {
                if tally.best_score is None || found.score > tally.best_score->0 {
                    assert(worth(rules, e, p, depth, ply, tally2.list[c].0)
                        == tally2.best_score->0);
                } else {
                    let k = choose|k: int|
                        0 <= k < c && worth(rules, e, p, depth, ply, (#[trigger] tally.list[k]).0)
                            == tally.best_score->0;
                    assert(tally2.list[k] == tally.list[k]);
                }
            }
            assert(w2.t.stack[MAX_PLY as int].pv.len() == 0);
        }
    }
}

proof fn lemma_moves<R: Rules, B: Backend>(
    rules: &R,
    calm: spec_fn(B::State) -> bool,
    e: spec_fn(BoardModel) -> int,
    p: PositionModel,
    w: World<B::State>,
    tally: Tally,
    node: NodeType,
    alpha: int,
    beta: int,
    depth: int,
    ply: int,
    improving: bool,
)
    requires
        depth > 0,
        set_up::<R, B>(rules, calm, e, w, node, alpha, beta, depth, ply),
        final_score(rules, p, node is Root, ply) is None,
        so_far(rules, e, p, tally, node, w.t.stack[ply].pv, alpha, beta, depth, ply),
    ensures
        told_at_the_end::<R, B>(
            rules,
            calm,
            e,
            p,
            moves_searched::<R, B>(rules, p, w, tally, node, beta, depth, ply, improving),
            node,
            alpha,
            beta,
            depth,
            ply,
        ),
    decreases reach(depth), 2nat, 8 - tally.picker.cursor,
{
    let b = p.board();
    let turn = tally.picker.pick::<R, B>(rules, w.s, p, tally.list);
    let next = tally.after_turn(turn);
    lemma_pick_goes_through::<R, B>(rules, w.s, p, tally.picker, tally.list);
    assert(rules.moves(b, MoveFilter::Noisy).no_duplicates());
    assert(turn.list.len() <= 7);
    let result = moves_searched::<R, B>(rules, p, w, tally, node, beta, depth, ply, improving);
    if turn.mv is None {
        assert(result == (Exhausted { tally: next, w, stopped: false })) by {
            reveal(moves_searched);
            reveal(move_searched);
        }
        lemma_all_weighed::<R, B>(
            rules,
            calm,
            e,
            p,
            w,
            tally,
            next,
            node,
            alpha,
            beta,
            depth,
            ply,
        );
    } else {
        let mv = turn.mv->0;
        lemma_not_passed_over::<R, B>(rules, p, tally, next, node, depth, improving, mv);
        let counted = next.with_safety(rules, b, mv).counting(mv);
        let found = move_searched::<R, B>(rules, p, w, counted, node, beta, depth, ply, mv);
        let step = weighed::<B>(p, counted, found, node, beta, depth, ply, mv);
        assert(result == match step {
            Step::End(end) => end,
            Step::On(tally2, w2) => moves_searched::<R, B>(
                rules,
                p,
                w2,
                tally2,
                node,
                beta,
                depth,
                ply,
                improving,
            ),
        }) by {
            reveal(moves_searched);
            reveal(move_searched);
        }
        square_numbers_are_exact(mv.duck, 0);
        assert(counted.safe(mv) == next.with_safety(rules, b, mv).safe(mv));
        lemma_move::<R, B>(rules, calm, e, p, w, counted, node, beta, depth, ply, mv);
        lemma_move_keeps::<R, B>(rules, p, w, counted, node, beta, depth, ply, mv);
        lemma_step::<R, B>(
            rules,
            calm,
            e,
            p,
            w,
            tally,
            next,
            found,
            node,
            alpha,
            beta,
            depth,
            ply,
            mv,
        );
        if step is On {
            lemma_moves::<R, B>(
                rules,
                calm,
                e,
                p,
                step->On_1,
                step->On_0,
                node,
                alpha,
                beta,
                depth,
                ply,
                improving,
            );
        }
    }
}

proof fn lemma_counting_notes(
    tally: Tally,
    next: Tally,
    known: Tally,
    mv: Move,
    reply: Option<Move>,
    after: Tally,
)
    requires
        noted_of_the_past(tally),
        0 <= tally.picker.cursor <= tally.list.len() <= next.list.len(),
        tally.picker.cursor < next.list.len(),
        next.picker.cursor == tally.picker.cursor + 1,
        forall|i: int| 0 <= i < tally.list.len() ==> #[trigger] next.list[i] == tally.list[i],
        next.list[tally.picker.cursor].0 == mv,
        next.duck_refutations == tally.duck_refutations,
        next.duck_safety == tally.duck_safety,
        next.ducks_by_move == tally.ducks_by_move,
        next.duck_counts == tally.duck_counts,
        known.duck_safety.len() == 64,
        forall|i: int|
            0 <= i < 64 && i != mv.dest.number() ==> #[trigger] known.duck_safety[i]
                == tally.duck_safety[i],
        known.duck_safety[mv.dest.number() as int] matches Some(s) ==> s.src == mv.src,
        after.duck_safety == known.duck_safety,
        after.duck_refutations == known.with_reply(mv, reply).duck_refutations,
        known.duck_refutations == tally.duck_refutations,
        after.ducks_by_move.len() == 4096,
        after.duck_counts.len() == 64,
        after.list == next.list,
        after.picker == next.picker,
    ensures
        noted_of_the_past(after),
{
    square_numbers_are_exact(mv.src, 0);
    square_numbers_are_exact(mv.dest, 0);
    let c = tally.picker.cursor;
    assert(past_way(after, mv.src, mv.dest)) by {
        assert(after.list[c].0 == mv);
    }
    assert forall|src: Square, dest: Square| past_way(tally, src, dest) implies past_way(
        after,
        src,
        dest,
    ) by {
        let i = choose|i: int|
            0 <= i < c && (#[trigger] tally.list[i]).0.src == src && tally.list[i].0.dest == dest;
        assert(after.list[i] == tally.list[i]);
    }
    assert forall|src: Square, dest: Square|
        (#[trigger] after.duck_refutations[src.number() * 64 + dest.number()])
            == Set::<Square>::empty() || past_way(after, src, dest) by {
        square_numbers_are_exact(src, 0);
        square_numbers_are_exact(dest, 0);
        assert(tally.duck_refutations[src.number() * 64 + dest.number()] == Set::<Square>::empty()
            || past_way(tally, src, dest));
        if src.number() * 64 + dest.number() == route(mv) {
            assert(src.number() == mv.src.number() && dest.number() == mv.dest.number());
            assert(src == mv.src && dest == mv.dest);
        }
    }
    assert forall|dest: Square|
        (#[trigger] after.duck_safety[dest.number() as int]) matches Some(known) implies past_way(
        after,
        after.duck_safety[dest.number() as int]->0.src,
        dest,
    ) by {
        square_numbers_are_exact(dest, 0);
        if dest.number() == mv.dest.number() {
            assert(dest == mv.dest);
        } else {
            assert(tally.duck_safety[dest.number() as int] == after.duck_safety[dest.number()
                as int]);
        }
    }
}

proof fn lemma_search<R: Rules, B: Backend>(
    rules: &R,
    calm: spec_fn(B::State) -> bool,
    e: spec_fn(BoardModel) -> int,
    p: PositionModel,
    w: World<B::State>,
    node: NodeType,
    alpha: int,
    beta: int,
    depth: int,
    ply: int,
)
    requires
        set_up::<R, B>(rules, calm, e, w, node, alpha, beta, depth, ply),
    ensures
        ({
            let o = searched::<R, B>(rules, p, w, node, alpha, beta, depth, ply);
            o.w.t.stop || told::<R, B>(
                rules,
                calm,
                e,
                p,
                o.score,
                o.w,
                node,
                alpha,
                beta,
                depth,
                ply,
            )
        }),
    decreases reach(depth), 7nat, 0int,
{
    reveal(searched);
    reveal(node_searched);
    let b = p.board();
    let w1 = if node is Root {
        w
    } else {
        after_must_stop::<B>(w)
    };
    if node is Root || !must_stop::<B>(w) {
        assert(calm(w1.s));
        let w2 = w1.with_thread(entered(w1.t, node, ply));
        if depth <= 0 {
            lemma_quiet::<R, B>(rules, calm, e, p, w2, node, alpha, beta, ply);
        } else if final_score(rules, p, node is Root, ply) is None {
            let w3 = if node is Root {
                w2
            } else {
                w2.with_state(B::after_node(w2.s))
            };
            let c = consulted::<R, B>(rules, b, w3, node, alpha, beta, depth, ply);
            assert(c.settled is None && c.tt_move is None && c.w.t == w3.t && calm(c.w.s)) by {
                reveal(consulted);
                reveal(consulted_duckless);
                assert(B::entry(w3.s, b.hash) is None);
                assert(B::entry(B::after_probe(w3.s, b.hash), b.duckless_key()) is None);
                assert(calm(B::after_probe(w3.s, b.hash)));
            }
            assert(kept_tame(B::eval_of(c.w.s, b) + B::corr_of(c.w.s, b)) == e(b));
            assert(static_eval_of::<B>(c.w.s, b) == e(b));
            assert(-MATE_BOUND <= e(b) <= MATE_BOUND);
            let raw = B::eval_of(c.w.s, b);
            let improving = crate::search::model::improves(c.w.t, ply, e(b));
            let w4 = c.w.with_thread(c.w.t.with_evals(ply, raw, e(b)));
            let fresh = fresh_tally(None, alpha, depth);
            assert forall|src: Square, dest: Square| #[trigger]
                fresh.duck_refutations[src.number() * 64 + dest.number()] == Set::<
                    Square,
                >::empty() by {
                square_numbers_are_exact(src, 0);
                square_numbers_are_exact(dest, 0);
            }
            assert forall|dest: Square| #[trigger]
                fresh.duck_safety[dest.number() as int] is None by {
                square_numbers_are_exact(dest, 0);
            }
            lemma_moves::<R, B>(
                rules,
                calm,
                e,
                p,
                w4,
                fresh,
                node,
                alpha,
                beta,
                depth,
                ply,
                improving,
            );
            let end = moves_searched::<R, B>(
                rules,
                p,
                w4,
                fresh,
                node,
                beta,
                depth,
                ply,
                improving,
            );
            let o = all_searched::<R, B>(
                rules,
                p,
                w4,
                node,
                alpha,
                beta,
                depth,
                ply,
                None,
                raw,
                improving,
            );
            lemma_all_searched::<R, B>(
                rules,
                p,
                w4,
                node,
                alpha,
                beta,
                depth,
                ply,
                raw,
                improving,
            );
            if !end.stopped {
                lemma_concluded::<R, B>(
                    rules,
                    calm,
                    e,
                    p,
                    end,
                    node,
                    alpha,
                    beta,
                    depth,
                    ply,
                    raw,
                );
            }
            assert(o.w.t.stop || told::<R, B>(
                rules,
                calm,
                e,
                p,
                o.score,
                o.w,
                node,
                alpha,
                beta,
                depth,
                ply,
            ));
            node_unfolds::<R, B>(
                rules,
                p,
                w4,
                node,
                alpha,
                beta,
                depth,
                ply,
                None,
                raw,
                e(b),
                improving,
            );
            assert(searched::<R, B>(rules, p, w, node, alpha, beta, depth, ply) == o);
        }
    }
}

proof fn lemma_all_searched<R: Rules, B: Backend>(
    rules: &R,
    p: PositionModel,
    w: World<B::State>,
    node: NodeType,
    alpha: int,
    beta: int,
    depth: int,
    ply: int,
    raw_eval: int,
    improving: bool,
)
    requires
        depth > 0,
    ensures
        ({
            let end = moves_searched::<R, B>(
                rules,
                p,
                w,
                fresh_tally(None, alpha, depth),
                node,
                beta,
                depth,
                ply,
                improving,
            );
            let o = all_searched::<R, B>(
                rules,
                p,
                w,
                node,
                alpha,
                beta,
                depth,
                ply,
                None,
                raw_eval,
                improving,
            );
            &&& end.stopped ==> o.w == end.w
            &&& !end.stopped ==> o == concluded::<B>(p, end.tally, end.w, depth, ply, raw_eval)
        }),
{
    reveal(all_searched);
    reveal(moves_searched);
}

proof fn lemma_concluded<R: Rules, B: Backend>(
    rules: &R,
    calm: spec_fn(B::State) -> bool,
    e: spec_fn(BoardModel) -> int,
    p: PositionModel,
    end: Exhausted<B::State>,
    node: NodeType,
    alpha: int,
    beta: int,
    depth: int,
    ply: int,
    raw_eval: int,
)
    requires
        depth > 0,
        !end.stopped,
        unmoved::<B>(calm, e),
        final_score(rules, p, node is Root, ply) is None,
        told_at_the_end::<R, B>(rules, calm, e, p, end, node, alpha, beta, depth, ply),
    ensures
        ({
            let o = concluded::<B>(p, end.tally, end.w, depth, ply, raw_eval);
            told::<R, B>(rules, calm, e, p, o.score, o.w, node, alpha, beta, depth, ply)
        }),
{
    reveal(concluded);
    let moves = rules.moves(p.board(), MoveFilter::Noisy) + rules.moves(
        p.board(),
        MoveFilter::Quiet,
    );
    lemma_all_moves(rules, p.board(), moves[0]);
}

/// Without pruning and without table entries, a search to a depth that is not
/// stopped finds the value of the game to that depth: exactly if it lies within the
/// window, else as a bound. On the principal variation the line it leaves then
/// reaches that value, and has as many moves as the depth unless it ends the game.
pub proof fn a_search_finds_the_value<R: Rules, B: Backend>(
    rules: &R,
    calm: spec_fn(B::State) -> bool,
    e: spec_fn(BoardModel) -> int,
    p: PositionModel,
    w: World<B::State>,
    node: NodeType,
    alpha: int,
    beta: int,
    depth: int,
    ply: int,
)
    requires
        0 <= ply,
        ply + reach(depth) <= MAX_PLY,
        w.t.stack.len() == MAX_PLY + 1,
        w.t.stack[MAX_PLY as int].pv.len() == 0,
        calm(w.s),
        unmoved::<B>(calm, e),
        tame(e),
        unpruned::<R, B>(rules),
        -INFINITE <= alpha < beta <= INFINITE,
        node.pv() || alpha == beta - 1,
        node is Root ==> depth > 0,
    ensures
        ({
            let o = searched::<R, B>(rules, p, w, node, alpha, beta, depth, ply);
            let v = value(rules, e, p, node is Root, depth, ply);
            o.w.t.stop || {
                &&& calm(o.w.s)
                &&& o.score <= alpha ==> v <= o.score
                &&& alpha < o.score < beta ==> v == o.score
                &&& o.score >= beta ==> v >= o.score
                &&& node.pv() && alpha < o.score < beta ==> {
                    let line = o.w.t.stack[ply].pv;
                    &&& best_line(rules, e, p, node is Root, depth, ply, line)
                    &&& line.len() >= depth || ends_the_game(rules, p, node is Root, line)
                }
                &&& alpha == -INFINITE && beta == INFINITE ==> o.score == v
            }
        }),
{
    lemma_search::<R, B>(rules, calm, e, p, w, node, alpha, beta, depth, ply);
    values_are_bounded(rules, e, p, node is Root, depth, ply);
    let o = searched::<R, B>(rules, p, w, node, alpha, beta, depth, ply);
    if !o.w.t.stop && node.pv() && alpha < o.score < beta {
        a_best_line_goes_to_the_depth(
            rules,
            e,
            p,
            node is Root,
            depth,
            ply,
            o.w.t.stack[ply].pv,
        );
    }
}

} // verus!
