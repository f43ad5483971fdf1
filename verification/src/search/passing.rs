//! Which moves a node passes over, told by the moves it has searched before.

use crate::board::attacks::{between_is_on_the_way, on_the_way};
use crate::common::bitboard::all_squares;
use crate::common::moves::Move;
use crate::common::types::{square_numbers_are_exact, Square};
use crate::position::PositionModel;
use crate::rules::Rules;
use crate::search::backend::Backend;
use crate::search::model::{
    fresh_quiet_tally, fresh_tally, move_searched, moves_searched, noisies_searched, noisy_searched,
    raised, route, weighed, NodeType, QuietTally, Step, Tally, World,
};
use crate::search::MAX_PLY;
use vstd::prelude::*;

verus! {

/// A move that a node has searched, and the reply that the search recorded.
pub struct Tried {
    pub mv: Move,
    pub reply: Option<Move>,
}

/// Whether a reply can be played with the duck on a square: it is not on the reply's
/// way nor on its destination, and the reply does not put it where it is.
pub open spec fn lets_through(duck: Square, reply: Move) -> bool {
    !on_the_way(reply.src, reply.dest, duck) && duck != reply.dest && duck != reply.duck
}

/// Whether a searched move with the same origin and destination met a reply that
/// this move's duck lets through.
pub open spec fn answered(tried: Seq<Tried>, mv: Move) -> bool {
    exists|i: int|
        0 <= i < tried.len() && (#[trigger] tried[i]).mv.src == mv.src && tried[i].mv.dest
            == mv.dest && tried[i].reply is Some && lets_through(mv.duck, tried[i].reply->0)
}

/// Whether a searched move with the same destination met a reply that this move's
/// duck lets through.
pub open spec fn answered_there(tried: Seq<Tried>, mv: Move) -> bool {
    exists|i: int|
        0 <= i < tried.len() && (#[trigger] tried[i]).mv.dest == mv.dest && tried[i].reply is Some
            && lets_through(mv.duck, tried[i].reply->0)
}

/// How many of the searched moves have the same origin and destination.
pub open spec fn same_way(tried: Seq<Tried>, mv: Move) -> int
    decreases tried.len(),
{
    if tried.len() == 0 {
        0
    } else {
        same_way(tried.drop_last(), mv) + if tried.last().mv.src == mv.src && tried.last().mv.dest
            == mv.dest {
            1int
        } else {
            0
        }
    }
}

/// How many of the searched moves have the same duck square.
pub open spec fn same_duck(tried: Seq<Tried>, mv: Move) -> int
    decreases tried.len(),
{
    if tried.len() == 0 {
        0
    } else {
        same_duck(tried.drop_last(), mv) + if tried.last().mv.duck == mv.duck {
            1int
        } else {
            0
        }
    }
}

proof fn lemma_one_more(tried: Seq<Tried>, last: Tried, mv: Move)
    ensures
        answered(tried.push(last), mv) <==> answered(tried, mv) || last.mv.src == mv.src
            && last.mv.dest == mv.dest && last.reply is Some && lets_through(
            mv.duck,
            last.reply->0,
        ),
        answered_there(tried.push(last), mv) <==> answered_there(tried, mv) || last.mv.dest
            == mv.dest && last.reply is Some && lets_through(mv.duck, last.reply->0),
        same_way(tried.push(last), mv) == same_way(tried, mv) + if last.mv.src == mv.src
            && last.mv.dest == mv.dest {
            1int
        } else {
            0
        },
        same_duck(tried.push(last), mv) == same_duck(tried, mv) + if last.mv.duck == mv.duck {
            1int
        } else {
            0
        },
{
    let more = tried.push(last);
    assert(more.drop_last() =~= tried);
    assert(more[tried.len() as int] == last);
    if answered(tried, mv) {
        let i = choose|i: int|
            0 <= i < tried.len() && (#[trigger] tried[i]).mv.src == mv.src && tried[i].mv.dest
                == mv.dest && tried[i].reply is Some && lets_through(mv.duck, tried[i].reply->0);
        assert(more[i] == tried[i]);
    }
    if answered(more, mv) {
        let i = choose|i: int|
            0 <= i < more.len() && (#[trigger] more[i]).mv.src == mv.src && more[i].mv.dest
                == mv.dest && more[i].reply is Some && lets_through(mv.duck, more[i].reply->0);
        if i < tried.len() {
            assert(more[i] == tried[i]);
        }
    }
    if answered_there(tried, mv) {
        let i = choose|i: int|
            0 <= i < tried.len() && (#[trigger] tried[i]).mv.dest == mv.dest && tried[i].reply
                is Some && lets_through(mv.duck, tried[i].reply->0);
        assert(more[i] == tried[i]);
    }
    if answered_there(more, mv) {
        let i = choose|i: int|
            0 <= i < more.len() && (#[trigger] more[i]).mv.dest == mv.dest && more[i].reply
                is Some && lets_through(mv.duck, more[i].reply->0);
        if i < tried.len() {
            assert(more[i] == tried[i]);
        }
    }
}

proof fn lemma_counts(tried: Seq<Tried>, mv: Move)
    ensures
        0 <= same_way(tried, mv) <= tried.len(),
        0 <= same_duck(tried, mv) <= tried.len(),
    decreases tried.len(),
{
    if tried.len() > 0 {
        lemma_counts(tried.drop_last(), mv);
    }
}

// The search.

/// Whether the notes of a node are those of the moves it has searched. The counters
/// start over at 256.
pub open spec fn remembers(tally: Tally, tried: Seq<Tried>) -> bool {
    &&& tally.ducks_by_move.len() == 4096
    &&& tally.duck_counts.len() == 64
    &&& tally.duck_refutations.len() == 4096
    &&& tally.duck_safety.len() == 64
    &&& forall|mv: Move| #[trigger] tally.refutes(mv) <==> answered(tried, mv)
    &&& forall|mv: Move| tally.ducks_by_move[#[trigger] route(mv)] == same_way(tried, mv) % 256
    &&& forall|mv: Move|
        tally.duck_counts[#[trigger] mv.duck.number()] == same_duck(tried, mv) % 256
}

/// How far a node has come through its moves.
pub struct Course<S> {
    pub tally: Tally,
    pub w: World<S>,
    pub tried: Seq<Tried>,
}

/// Whether a node passes over a move, given what it has searched: because a move like
/// it was answered in a way that its duck lets through; because enough duck squares
/// have been tried for it, if the depth is small and no duck square matters for the
/// king; or, off the principal variation, because enough moves have been tried with
/// its duck square, if the depth is small and the move is quiet.
pub open spec fn passed_over<B: Backend>(
    tried: Seq<Tried>,
    safe: Set<Square>,
    node: NodeType,
    depth: int,
    improving: bool,
    mv: Move,
) -> bool {
    let quiet = !mv.flag.noisy();
    ||| answered(tried, mv)
    ||| (forall|sq: Square| #[trigger] safe.contains(sq)) && depth <= B::ldp_reach(quiet)
        && same_way(tried, mv) % 256 >= B::ldp_limit(depth, quiet, improving)
    ||| node is NonPV && quiet && depth <= B::dcp_reach() && same_duck(tried, mv) % 256
        >= B::dcp_limit(depth, improving)
}

/// The course of a node after it has been handed a number of moves. One that has no
/// more moves, or has ended, stays where it is.
pub open spec fn after_turns<R: Rules, B: Backend>(
    rules: &R,
    p: PositionModel,
    w: World<B::State>,
    tally: Tally,
    node: NodeType,
    beta: int,
    depth: int,
    ply: int,
    improving: bool,
    n: nat,
) -> Course<B::State>
    decreases n,
{
    if n == 0 {
        Course { tally, w, tried: Seq::empty() }
    } else {
        let c = after_turns::<R, B>(
            rules,
            p,
            w,
            tally,
            node,
            beta,
            depth,
            ply,
            improving,
            (n - 1) as nat,
        );
        let turn = c.tally.picker.pick::<R, B>(rules, c.w.s, p, c.tally.list);
        let next = c.tally.after_turn(turn);
        if turn.mv is None {
            c
        } else {
            let mv = turn.mv->0;
            let known = next.with_safety(rules, p.board(), mv);
            if answered(c.tried, mv) {
                Course { tally: next, ..c }
            } else if passed_over::<B>(c.tried, known.safe(mv), node, depth, improving, mv) {
                Course { tally: known, ..c }
            } else {
                let counted = known.counting(mv);
                let found = move_searched::<R, B>(
                    rules,
                    p,
                    c.w,
                    counted,
                    node,
                    beta,
                    depth,
                    ply,
                    mv,
                );
                match weighed::<B>(p, counted, found, node, beta, depth, ply, mv) {
                    Step::End(_) => c,
                    Step::On(tally, w) => Course {
                        tally,
                        w,
                        tried: c.tried.push(Tried { mv, reply: found.w.t.stack[ply + 1].mv }),
                    },
                }
            }
        }
    }
}

proof fn lemma_all_safe(safe: Set<Square>)
    ensures
        safe == all_squares() <==> forall|sq: Square| #[trigger] safe.contains(sq),
{
    if forall|sq: Square| #[trigger] safe.contains(sq) {
        assert(safe =~= all_squares());
    } else {
        let sq = choose|sq: Square| !#[trigger] safe.contains(sq);
        assert(all_squares().contains(sq));
    }
}

proof fn lemma_lets_through(duck: Square, reply: Move)
    ensures
        crate::search::model::not_stopping(reply).contains(duck) <==> lets_through(duck, reply),
{
    between_is_on_the_way(reply.src, reply.dest, duck);
}

proof fn lemma_other_route(x: Move, y: Move)
    ensures
        route(x) == route(y) <==> x.src == y.src && x.dest == y.dest,
        0 <= route(x) < 4096,
        0 <= x.duck.number() < 64,
        0 <= x.dest.number() < 64,
        x.duck.number() == y.duck.number() <==> x.duck == y.duck,
        x.dest.number() == y.dest.number() <==> x.dest == y.dest,
{
    square_numbers_are_exact(x.src, 0);
    square_numbers_are_exact(x.dest, 0);
    square_numbers_are_exact(x.duck, 0);
    square_numbers_are_exact(y.src, 0);
    square_numbers_are_exact(y.dest, 0);
    square_numbers_are_exact(y.duck, 0);
}

proof fn lemma_noted(tally: Tally, tried: Seq<Tried>, mv: Move, reply: Option<Move>)
    requires
        remembers(tally, tried),
    ensures
        remembers(
            tally.counting(mv).with_reply(mv, reply),
            tried.push(Tried { mv, reply }),
        ),
{
    let after = tally.counting(mv).with_reply(mv, reply);
    let last = Tried { mv, reply };
    let more = tried.push(last);
    lemma_other_route(mv, mv);
    assert forall|m: Move| #[trigger] after.refutes(m) <==> answered(more, m) by {
        lemma_one_more(tried, last, m);
        lemma_other_route(mv, m);
        lemma_other_route(m, m);
        assert(tally.refutes(m) <==> answered(tried, m));
        if last.reply is Some {
            lemma_lets_through(m.duck, last.reply->0);
        }
    }
    assert forall|m: Move| after.ducks_by_move[#[trigger] route(m)] == same_way(more, m) % 256 by {
        lemma_one_more(tried, last, m);
        lemma_other_route(mv, m);
        lemma_other_route(m, m);
        lemma_counts(tried, m);
        assert(tally.ducks_by_move[route(m)] == same_way(tried, m) % 256);
    }
    assert forall|m: Move| after.duck_counts[#[trigger] m.duck.number()] == same_duck(more, m)
        % 256 by {
        lemma_one_more(tried, last, m);
        lemma_other_route(mv, m);
        lemma_other_route(m, m);
        lemma_counts(tried, m);
        assert(tally.duck_counts[m.duck.number()] == same_duck(tried, m) % 256);
    }
}

/// A node that has searched nothing has no notes, and each searched move adds what
/// it tells and no more: only moves with the same origin and destination are answered
/// by its reply, and just those whose duck lets the reply through.
pub proof fn notes_come_from_searched_moves<R: Rules, B: Backend>(
    rules: &R,
    p: PositionModel,
    tally: Tally,
    tried: Seq<Tried>,
    found: crate::search::model::Searched<B::State>,
    node: NodeType,
    beta: int,
    depth: int,
    ply: int,
    mv: Move,
    tt_move: Option<Move>,
    alpha: int,
)
    requires
        0 <= ply < MAX_PLY,
        found.w.t.stack.len() == MAX_PLY + 1,
        remembers(tally, tried),
    ensures
        remembers(fresh_tally(tt_move, alpha, depth), Seq::empty()),
        remembers(tally.with_safety(rules, p.board(), mv), tried),
        weighed::<B>(p, tally.counting(mv), found, node, beta, depth, ply, mv) matches Step::On(
            after,
            _,
        ) ==> remembers(after, tried.push(Tried { mv, reply: found.w.t.stack[ply + 1].mv })),
{
    let fresh = fresh_tally(tt_move, alpha, depth);
    assert forall|m: Move| !#[trigger] fresh.refutes(m) by {
        lemma_other_route(m, m);
    }
    assert forall|m: Move| fresh.ducks_by_move[#[trigger] route(m)] == 0 by {
        lemma_other_route(m, m);
    }
    assert forall|m: Move| fresh.duck_counts[#[trigger] m.duck.number()] == 0 by {
        lemma_other_route(m, m);
    }
    let known = tally.with_safety(rules, p.board(), mv);
    assert forall|m: Move| #[trigger] known.refutes(m) <==> answered(tried, m) by {
        assert(known.refutes(m) == tally.refutes(m));
    }
    let step = weighed::<B>(p, tally.counting(mv), found, node, beta, depth, ply, mv);
    if step is On {
        let after = step->On_0;
        let reply = found.w.t.stack[ply + 1].mv;
        let noted = tally.counting(mv).with_reply(mv, reply);
        lemma_noted(tally, tried, mv, reply);
        assert(after.duck_refutations == noted.duck_refutations && after.ducks_by_move
            == noted.ducks_by_move && after.duck_counts == noted.duck_counts && after.duck_safety
            == noted.duck_safety) by {
            reveal(weighed);
        }
        assert forall|m: Move| #[trigger] after.refutes(m) <==> answered(
            tried.push(Tried { mv, reply }),
            m,
        ) by {
            assert(after.refutes(m) == noted.refutes(m));
        }
    }
}

/// A node passes over a move exactly as the moves it has searched before tell: for
/// any number of moves handed out, what it finds is what it finds from there on, and
/// its notes are those of the searched moves. So the first move with a given origin
/// and destination is never passed over as answered.
pub proof fn moves_are_passed_over_for_a_reason<R: Rules, B: Backend>(
    rules: &R,
    p: PositionModel,
    w: World<B::State>,
    tt_move: Option<Move>,
    node: NodeType,
    alpha: int,
    beta: int,
    depth: int,
    ply: int,
    improving: bool,
    n: nat,
)
    requires
        0 <= ply < MAX_PLY,
        depth > 0,
        w.t.stack.len() == MAX_PLY + 1,
    ensures
        ({
            let fresh = fresh_tally(tt_move, alpha, depth);
            let c = after_turns::<R, B>(
                rules,
                p,
                w,
                fresh,
                node,
                beta,
                depth,
                ply,
                improving,
                n,
            );
            &&& remembers(c.tally, c.tried)
            &&& c.w.t.stack.len() == MAX_PLY + 1
            &&& moves_searched::<R, B>(
                rules,
                p,
                c.w,
                c.tally,
                node,
                beta,
                depth,
                ply,
                improving,
            ) == moves_searched::<R, B>(
                rules,
                p,
                w,
                fresh,
                node,
                beta,
                depth,
                ply,
                improving,
            )
        }),
    decreases n,
{
    let fresh = fresh_tally(tt_move, alpha, depth);
    if n == 0 {
        assert forall|m: Move| !#[trigger] fresh.refutes(m) by {
            lemma_other_route(m, m);
        }
        assert forall|m: Move| fresh.ducks_by_move[#[trigger] route(m)] == 0 by {
            lemma_other_route(m, m);
        }
        assert forall|m: Move| fresh.duck_counts[#[trigger] m.duck.number()] == 0 by {
            lemma_other_route(m, m);
        }
    } else {
        moves_are_passed_over_for_a_reason::<R, B>(
            rules,
            p,
            w,
            tt_move,
            node,
            alpha,
            beta,
            depth,
            ply,
            improving,
            (n - 1) as nat,
        );
        let c = after_turns::<R, B>(
            rules,
            p,
            w,
            fresh,
            node,
            beta,
            depth,
            ply,
            improving,
            (n - 1) as nat,
        );
        let turn = c.tally.picker.pick::<R, B>(rules, c.w.s, p, c.tally.list);
        let next = c.tally.after_turn(turn);
        assert(remembers(next, c.tried)) by {
            assert forall|m: Move| #[trigger] next.refutes(m) <==> answered(c.tried, m) by {
                assert(next.refutes(m) == c.tally.refutes(m));
            }
        }
        if turn.mv is Some {
            let mv = turn.mv->0;
            let known = next.with_safety(rules, p.board(), mv);
            let counted = known.counting(mv);
            let found = move_searched::<R, B>(
                rules,
                p,
                c.w,
                counted,
                node,
                beta,
                depth,
                ply,
                mv,
            );
            crate::search::frames::lemma_move_keeps::<R, B>(
                rules,
                p,
                c.w,
                counted,
                node,
                beta,
                depth,
                ply,
                mv,
            );
            notes_come_from_searched_moves::<R, B>(
                rules,
                p,
                next,
                c.tried,
                found,
                node,
                beta,
                depth,
                ply,
                mv,
                tt_move,
                alpha,
            );
            notes_come_from_searched_moves::<R, B>(
                rules,
                p,
                known,
                c.tried,
                found,
                node,
                beta,
                depth,
                ply,
                mv,
                tt_move,
                alpha,
            );
            lemma_all_safe(known.safe(mv));
            assert(next.refutes(mv) <==> answered(c.tried, mv));
            assert(known.ducks_by_move[route(mv)] == same_way(c.tried, mv) % 256);
            assert(known.duck_counts[mv.duck.number()] == same_duck(c.tried, mv) % 256);
            let step = weighed::<B>(p, counted, found, node, beta, depth, ply, mv);
            assert(step is On ==> step->On_1.t.stack.len() == MAX_PLY + 1) by {
                reveal(weighed);
            }
            reveal(moves_searched);
            reveal(move_searched);
        }
    }
}

// The quiescence search.

/// Whether the notes of a quiescence node are those of the moves it has searched. The
/// counters start over at 256.
pub open spec fn remembers_quietly(tally: QuietTally, tried: Seq<Tried>) -> bool {
    &&& tally.ducks_by_move.len() == 4096
    &&& tally.duck_counts.len() == 64
    &&& tally.duck_refutations.len() == 64
    &&& tally.duck_safety.len() == 64
    &&& forall|mv: Move| #[trigger] tally.refutes(mv) <==> answered_there(tried, mv)
    &&& forall|mv: Move| tally.ducks_by_move[#[trigger] route(mv)] == same_way(tried, mv) % 256
    &&& forall|mv: Move|
        tally.duck_counts[#[trigger] mv.duck.number()] == same_duck(tried, mv) % 256
}

/// How far a quiescence node has come through its moves.
pub struct QuietCourse<S> {
    pub tally: QuietTally,
    pub w: World<S>,
    pub tried: Seq<Tried>,
}

/// Whether a quiescence node passes over a move, given what it has searched: because
/// a move to the same square was answered in a way that its duck lets through; because
/// enough duck squares have been tried for it, if no duck square matters for the king;
/// or, off the principal variation, because enough moves have been tried with its duck
/// square.
pub open spec fn passed_over_quietly<B: Backend>(
    tried: Seq<Tried>,
    safe: Set<Square>,
    node: NodeType,
    mv: Move,
) -> bool {
    ||| answered_there(tried, mv)
    ||| (forall|sq: Square| #[trigger] safe.contains(sq)) && same_way(tried, mv) % 256
        >= B::qsldp_limit()
    ||| node is NonPV && same_duck(tried, mv) % 256 >= B::qsdcp_limit()
}

/// The course of a quiescence node after it has been handed a number of moves. One
/// that has no more moves, or has ended, stays where it is.
pub open spec fn after_quiet_turns<R: Rules, B: Backend>(
    rules: &R,
    p: PositionModel,
    w: World<B::State>,
    tally: QuietTally,
    node: NodeType,
    beta: int,
    ply: int,
    n: nat,
) -> QuietCourse<B::State>
    decreases n,
{
    if n == 0 {
        QuietCourse { tally, w, tried: Seq::empty() }
    } else {
        let c = after_quiet_turns::<R, B>(rules, p, w, tally, node, beta, ply, (n - 1) as nat);
        let turn = c.tally.picker.pick::<R, B>(rules, c.w.s, p, c.tally.list);
        let next = c.tally.after_turn(turn);
        if turn.mv is None {
            c
        } else {
            let mv = turn.mv->0;
            let known = next.with_safety(rules, p.board(), mv);
            if answered_there(c.tried, mv) {
                QuietCourse { tally: next, ..c }
            } else if passed_over_quietly::<B>(c.tried, known.safe(mv), node, mv) {
                QuietCourse { tally: known, ..c }
            } else {
                let counted = known.counting(mv);
                let found = noisy_searched::<R, B>(rules, p, c.w, counted, node, beta, ply, mv);
                let reply = found.w.t.stack[ply + 1].mv;
                let better = found.score > c.tally.alpha;
                if found.w.t.stop || better && found.score >= beta {
                    c
                } else {
                    QuietCourse {
                        tally: counted.with_reply(mv, reply).with_score(found.score),
                        w: if better {
                            found.w.with_thread(raised(found.w.t, mv, node, ply))
                        } else {
                            found.w
                        },
                        tried: c.tried.push(Tried { mv, reply }),
                    }
                }
            }
        }
    }
}

/// A quiescence node that has searched nothing has no notes, and each searched move
/// adds what it tells and no more: only moves to the same square are answered by its
/// reply, and just those whose duck lets the reply through.
pub proof fn quiet_notes_come_from_searched_moves<R: Rules>(
    rules: &R,
    p: PositionModel,
    tally: QuietTally,
    tried: Seq<Tried>,
    mv: Move,
    reply: Option<Move>,
    score: int,
    tt_move: Option<Move>,
    alpha: int,
)
    requires
        remembers_quietly(tally, tried),
    ensures
        remembers_quietly(fresh_quiet_tally(tt_move, alpha, score), Seq::empty()),
        remembers_quietly(tally.with_safety(rules, p.board(), mv), tried),
        remembers_quietly(
            tally.counting(mv).with_reply(mv, reply).with_score(score),
            tried.push(Tried { mv, reply }),
        ),
{
    let fresh = fresh_quiet_tally(tt_move, alpha, score);
    assert forall|m: Move| !#[trigger] fresh.refutes(m) by {
        lemma_other_route(m, m);
    }
    assert forall|m: Move| fresh.ducks_by_move[#[trigger] route(m)] == 0 by {
        lemma_other_route(m, m);
    }
    assert forall|m: Move| fresh.duck_counts[#[trigger] m.duck.number()] == 0 by {
        lemma_other_route(m, m);
    }
    let known = tally.with_safety(rules, p.board(), mv);
    assert forall|m: Move| #[trigger] known.refutes(m) <==> answered_there(tried, m) by {
        assert(known.refutes(m) == tally.refutes(m));
    }
    let after = tally.counting(mv).with_reply(mv, reply).with_score(score);
    let last = Tried { mv, reply };
    let more = tried.push(last);
    lemma_other_route(mv, mv);
    assert forall|m: Move| #[trigger] after.refutes(m) <==> answered_there(more, m) by {
        lemma_one_more(tried, last, m);
        lemma_other_route(mv, m);
        lemma_other_route(m, m);
        assert(tally.refutes(m) <==> answered_there(tried, m));
        if last.reply is Some {
            lemma_lets_through(m.duck, last.reply->0);
        }
    }
    assert forall|m: Move| after.ducks_by_move[#[trigger] route(m)] == same_way(more, m) % 256 by {
        lemma_one_more(tried, last, m);
        lemma_other_route(mv, m);
        lemma_other_route(m, m);
        lemma_counts(tried, m);
        assert(tally.ducks_by_move[route(m)] == same_way(tried, m) % 256);
    }
    assert forall|m: Move| after.duck_counts[#[trigger] m.duck.number()] == same_duck(more, m)
        % 256 by {
        lemma_one_more(tried, last, m);
        lemma_other_route(mv, m);
        lemma_other_route(m, m);
        lemma_counts(tried, m);
        assert(tally.duck_counts[m.duck.number()] == same_duck(tried, m) % 256);
    }
}

/// A quiescence node passes over a move exactly as the moves it has searched before
/// tell: for any number of moves handed out, what it finds is what it finds from there
/// on, and its notes are those of the searched moves.
pub proof fn noisy_moves_are_passed_over_for_a_reason<R: Rules, B: Backend>(
    rules: &R,
    p: PositionModel,
    w: World<B::State>,
    tt_move: Option<Move>,
    node: NodeType,
    alpha: int,
    beta: int,
    best_score: int,
    ply: int,
    n: nat,
)
    requires
        0 <= ply < MAX_PLY,
    ensures
        ({
            let fresh = fresh_quiet_tally(tt_move, alpha, best_score);
            let c = after_quiet_turns::<R, B>(rules, p, w, fresh, node, beta, ply, n);
            &&& remembers_quietly(c.tally, c.tried)
            &&& noisies_searched::<R, B>(rules, p, c.w, c.tally, node, beta, ply)
                == noisies_searched::<R, B>(rules, p, w, fresh, node, beta, ply)
        }),
    decreases n,
{
    let fresh = fresh_quiet_tally(tt_move, alpha, best_score);
    if n == 0 {
        assert forall|m: Move| !#[trigger] fresh.refutes(m) by {
            lemma_other_route(m, m);
        }
        assert forall|m: Move| fresh.ducks_by_move[#[trigger] route(m)] == 0 by {
            lemma_other_route(m, m);
        }
        assert forall|m: Move| fresh.duck_counts[#[trigger] m.duck.number()] == 0 by {
            lemma_other_route(m, m);
        }
    } else {
        noisy_moves_are_passed_over_for_a_reason::<R, B>(
            rules,
            p,
            w,
            tt_move,
            node,
            alpha,
            beta,
            best_score,
            ply,
            (n - 1) as nat,
        );
        let c = after_quiet_turns::<R, B>(
            rules,
            p,
            w,
            fresh,
            node,
            beta,
            ply,
            (n - 1) as nat,
        );
        let turn = c.tally.picker.pick::<R, B>(rules, c.w.s, p, c.tally.list);
        let next = c.tally.after_turn(turn);
        assert(remembers_quietly(next, c.tried)) by {
            assert forall|m: Move| #[trigger] next.refutes(m) <==> answered_there(c.tried, m) by {
                assert(next.refutes(m) == c.tally.refutes(m));
            }
        }
        if turn.mv is Some {
            let mv = turn.mv->0;
            let known = next.with_safety(rules, p.board(), mv);
            let counted = known.counting(mv);
            let found = noisy_searched::<R, B>(rules, p, c.w, counted, node, beta, ply, mv);
            let reply = found.w.t.stack[ply + 1].mv;
            quiet_notes_come_from_searched_moves::<R>(
                rules,
                p,
                next,
                c.tried,
                mv,
                reply,
                found.score,
                tt_move,
                alpha,
            );
            quiet_notes_come_from_searched_moves::<R>(
                rules,
                p,
                known,
                c.tried,
                mv,
                reply,
                found.score,
                tt_move,
                alpha,
            );
            lemma_all_safe(known.safe(mv));
            assert(next.refutes(mv) <==> answered_there(c.tried, mv));
            assert(known.ducks_by_move[route(mv)] == same_way(c.tried, mv) % 256);
            assert(known.duck_counts[mv.duck.number()] == same_duck(c.tried, mv) % 256);
            reveal(noisies_searched);
            reveal(noisy_searched);
        }
    }
}

} // verus!
