//! A game written out move by move, and a plain notebook to search it with.

use crate::board::board::{Board, BoardModel};
use crate::common::moves::Move;
use crate::common::types::Piece;
use crate::position::{Position, PositionModel};
use crate::rules::{MoveFilter, Rules};
use crate::score::{in_range, without_mate, Score, INFINITE, MATE_BOUND};
use crate::search::backend::{large, Backend, TTEntry, TTFlag, LARGE, MODERATE};
use crate::search::negamax::{kept_tame, steady, tame};
use vstd::prelude::*;

verus! {

/// A move out of the positions with a given key, and the board it leads to.
#[derive(Clone, Copy)]
pub struct Edge {
    pub key: u64,
    pub mv: Move,
    pub after: Board,
}

impl Edge {
    /// Whether the move can be played on a board: the keys agree, what it takes is
    /// there, the turn passes, and the mover keeps the king.
    pub open spec fn leaves(self, b: BoardModel) -> bool {
        &&& self.key == b.hash
        &&& self.mv.flag.takes() ==> b.mailbox[self.mv.dest] is Some
        &&& self.after@.stm == b.stm.opponent()
        &&& b.king_square(b.stm) is Some ==> self.after@.king_square(b.stm) is Some
    }

    fn leads_from(&self, board: &Board) -> (r: bool)
        ensures
            r == self.leaves(board@),
    {
        self.key == board.hash() && (!self.mv.flag().is_capture() || board.piece_on(
            self.mv.dest(),
        ).is_some()) && self.after.stm() == board.stm().flip() && (board.try_king(
            board.stm(),
        ).is_none() || self.after.try_king(board.stm()).is_some())
    }
}

pub open spec fn of_kind(mv: Move, filter: MoveFilter) -> bool {
    mv.flag.noisy() == (filter is Noisy)
}

/// The moves of a kind that the edges offer on a board.
pub open spec fn offered(edges: Seq<Edge>, b: BoardModel, filter: MoveFilter) -> Seq<Move>
    decreases edges.len(),
{
    if edges.len() == 0 {
        Seq::empty()
    } else {
        let rest = offered(edges.drop_last(), b, filter);
        if edges.last().leaves(b) && of_kind(edges.last().mv, filter) {
            rest.push(edges.last().mv)
        } else {
            rest
        }
    }
}

/// The board that the latest edge for a move leads to; the same board if no edge
/// has the move.
pub open spec fn led_to(edges: Seq<Edge>, b: BoardModel, mv: Move) -> BoardModel
    decreases edges.len(),
{
    if edges.len() == 0 {
        b
    } else if edges.last().leaves(b) && edges.last().mv == mv {
        edges.last().after@
    } else {
        led_to(edges.drop_last(), b, mv)
    }
}

proof fn lemma_offered(edges: Seq<Edge>, b: BoardModel, filter: MoveFilter, mv: Move)
    requires
        offered(edges, b, filter).contains(mv),
    ensures
        exists|i: int|
            0 <= i < edges.len() && (#[trigger] edges[i]).leaves(b) && edges[i].mv == mv,
        of_kind(mv, filter),
    decreases edges.len(),
{
    if edges.len() > 0 {
        let shorter = edges.drop_last();
        let rest = offered(shorter, b, filter);
        let k = choose|k: int|
            0 <= k < offered(edges, b, filter).len() && offered(edges, b, filter)[k] == mv;
        if k < rest.len() {
            assert(rest[k] == mv);
            lemma_offered(shorter, b, filter, mv);
            let i = choose|i: int|
                0 <= i < shorter.len() && (#[trigger] shorter[i]).leaves(b) && shorter[i].mv == mv;
            assert(edges[i] == shorter[i]);
        } else {
            assert(edges[edges.len() - 1].leaves(b));
        }
    }
}

proof fn lemma_edge_is_offered(edges: Seq<Edge>, b: BoardModel, i: int)
    requires
        0 <= i < edges.len(),
        edges[i].leaves(b),
    ensures
        of_kind(edges[i].mv, MoveFilter::Noisy) ==> offered(
            edges,
            b,
            MoveFilter::Noisy,
        ).contains(edges[i].mv),
        of_kind(edges[i].mv, MoveFilter::Quiet) ==> offered(
            edges,
            b,
            MoveFilter::Quiet,
        ).contains(edges[i].mv),
    decreases edges.len(),
{
    let shorter = edges.drop_last();
    if i < shorter.len() {
        lemma_edge_is_offered(shorter, b, i);
        lemma_offered_grows(edges, b, MoveFilter::Noisy, edges[i].mv);
        lemma_offered_grows(edges, b, MoveFilter::Quiet, edges[i].mv);
    } else {
        let noisies = offered(edges, b, MoveFilter::Noisy);
        let quiets = offered(edges, b, MoveFilter::Quiet);
        assert(of_kind(edges[i].mv, MoveFilter::Noisy) ==> noisies[noisies.len() - 1]
            == edges[i].mv);
        assert(of_kind(edges[i].mv, MoveFilter::Quiet) ==> quiets[quiets.len() - 1]
            == edges[i].mv);
    }
}

proof fn lemma_offered_grows(edges: Seq<Edge>, b: BoardModel, filter: MoveFilter, mv: Move)
    requires
        edges.len() > 0,
    ensures
        offered(edges.drop_last(), b, filter).contains(mv) ==> offered(
            edges,
            b,
            filter,
        ).contains(mv),
{
    let rest = offered(edges.drop_last(), b, filter);
    if rest.contains(mv) {
        let k = choose|k: int| 0 <= k < rest.len() && rest[k] == mv;
        assert(offered(edges, b, filter)[k] == mv);
    }
}

/// A game given by its moves.
pub struct GameTree {
    edges: Vec<Edge>,
}

impl GameTree {
    pub closed spec fn edges(&self) -> Seq<Edge> {
        self.edges@
    }

    /// A game without moves.
    pub fn new() -> (r: GameTree)
        ensures
            r.edges() == Seq::<Edge>::empty(),
    {
        GameTree { edges: Vec::new() }
    }

    /// Adds a move from a board, and the board it leads to.
    pub fn add(&mut self, before: &Board, mv: Move, after: Board)
        ensures
            final(self).edges() == old(self).edges().push(Edge { key: before@.hash, mv, after }),
    {
        self.edges.push(Edge { key: before.hash(), mv, after });
    }
}

impl Rules for GameTree {
    open spec fn moves(&self, b: BoardModel, filter: MoveFilter) -> Seq<Move> {
        offered(self.edges(), b, filter)
    }

    open spec fn played(&self, b: BoardModel, mv: Move) -> BoardModel {
        led_to(self.edges(), b, mv)
    }

    open spec fn passed(&self, b: BoardModel) -> BoardModel {
        b.with_duck(None).with_en_passant(None).with_turn_passed()
    }

    /// The same key has been on the board before.
    open spec fn repeated(&self, p: PositionModel) -> bool {
        exists|i: int| 0 <= i < p.moves.len() && (#[trigger] p.boards[i]).hash == p.board().hash
    }

    proof fn moves_are_of_their_kind(&self, b: BoardModel, filter: MoveFilter, mv: Move) {
        lemma_offered(self.edges(), b, filter, mv);
    }

    fn gen_moves(&self, board: &Board, filter: MoveFilter) -> (r: Vec<Move>) {
        let mut r: Vec<Move> = Vec::new();
        let noisy = filter == MoveFilter::Noisy;
        let mut i: usize = 0;
        while i < self.edges.len()
            invariant
                i <= self.edges@.len(),
                noisy == (filter is Noisy),
                r@ == offered(self.edges@.take(i as int), board@, filter),
                forall|k: int|
                    0 <= k < r@.len() && (#[trigger] r@[k]).flag.takes()
                        ==> board@.mailbox[r@[k].dest] is Some,
            decreases self.edges.len() - i,
        {
            let mv = self.edges[i].mv;
            assert(self.edges@.take(i + 1).drop_last() =~= self.edges@.take(i as int));
            if self.edges[i].leads_from(board) && mv.flag().is_noisy() == noisy {
                r.push(mv);
            }
            i += 1;
        }
        assert(self.edges@.take(i as int) =~= self.edges@);
        r
    }

    fn any_moves(&self, board: &Board) -> (r: bool) {
        self.gen_moves(board, MoveFilter::Noisy).len() > 0 || self.gen_moves(
            board,
            MoveFilter::Quiet,
        ).len() > 0
    }

    fn is_legal(&self, board: &Board, mv: Move) -> (r: bool) {
        let mut i: usize = 0;
        while i < self.edges.len()
            invariant
                i <= self.edges@.len(),
                forall|k: int|
                    0 <= k < i ==> !((#[trigger] self.edges@[k]).leaves(board@)
                        && self.edges@[k].mv == mv),
            decreases self.edges.len() - i,
        {
            if self.edges[i].leads_from(board) && self.edges[i].mv == mv {
                proof {
                    lemma_edge_is_offered(self.edges@, board@, i as int);
                }
                return true;
            }
            i += 1;
        }
        proof {
            if offered(self.edges@, board@, MoveFilter::Noisy).contains(mv) {
                lemma_offered(self.edges@, board@, MoveFilter::Noisy, mv);
            }
            if offered(self.edges@, board@, MoveFilter::Quiet).contains(mv) {
                lemma_offered(self.edges@, board@, MoveFilter::Quiet, mv);
            }
        }
        false
    }

    fn play(&self, board: &Board, mv: Move) -> (r: Board) {
        let mut i: usize = self.edges.len();
        proof {
            if offered(self.edges@, board@, MoveFilter::Noisy).contains(mv) {
                lemma_offered(self.edges@, board@, MoveFilter::Noisy, mv);
            } else {
                lemma_offered(self.edges@, board@, MoveFilter::Quiet, mv);
            }
            assert(self.edges@.take(i as int) =~= self.edges@);
        }
        while i > 0
            invariant
                i <= self.edges@.len(),
                exists|k: int|
                    0 <= k < i && (#[trigger] self.edges@[k]).leaves(board@) && self.edges@[k].mv
                        == mv,
                led_to(self.edges@, board@, mv) == led_to(
                    self.edges@.take(i as int),
                    board@,
                    mv,
                ),
            decreases i,
        {
            assert(self.edges@.take(i as int).drop_last() =~= self.edges@.take(i - 1));
            i -= 1;
            if self.edges[i].leads_from(board) && self.edges[i].mv == mv {
                return self.edges[i].after;
            }
        }
        *board
    }

    fn play_null(&self, board: &Board) -> (r: Board) {
        let mut next = *board;
        next.set_duck(None);
        next.set_en_passant(None);
        next.toggle_stm();
        next
    }

    fn repetition(&self, pos: &Position) -> (r: bool) {
        let key = pos.board().hash();
        let mut i: usize = 0;
        while i < pos.len()
            invariant
                pos.wf(),
                key == pos@.board().hash,
                i <= pos@.moves.len(),
                forall|k: int| 0 <= k < i ==> (#[trigger] pos@.boards[k]).hash != key,
            decreases pos@.moves.len() - i,
        {
            if pos.board_before(i).hash() == key {
                return true;
            }
            i += 1;
        }
        false
    }
}

/// The evaluation noted for a key, the latest if there are several.
pub open spec fn noted_eval(evals: Seq<(u64, Score)>, key: u64) -> int
    decreases evals.len(),
{
    if evals.len() == 0 {
        0
    } else if evals.last().0 == key {
        without_mate(evals.last().1@)
    } else {
        noted_eval(evals.drop_last(), key)
    }
}

/// The entry noted for a key, the latest if there are several. Scores beyond the
/// infinities are not taken for scores.
pub open spec fn noted_entry(table: Seq<(u64, TTEntry)>, key: u64) -> Option<TTEntry>
    decreases table.len(),
{
    if table.len() == 0 {
        None
    } else if table.last().0 == key && in_range(table.last().1.score@) {
        Some(table.last().1)
    } else {
        noted_entry(table.drop_last(), key)
    }
}

/// What a rating of a move is about.
#[derive(Debug, Clone, Copy, PartialEq, Eq, Structural)]
pub enum Statistic {
    Noisy,
    Quiet,
    Duck,
    Continuation,
}

/// `x`, kept between `-limit` and `limit`.
pub open spec fn limited(x: int, limit: int) -> int {
    if x > limit {
        limit
    } else if x < -limit {
        -limit
    } else {
        x
    }
}

fn limit_to(x: i32, limit: i32) -> (r: i32)
    requires
        limit > 0,
    ensures
        r == limited(x as int, limit as int),
{
    if x > limit {
        limit
    } else if x < -limit {
        -limit
    } else {
        x
    }
}

/// The rating noted for a move, the latest if there are several.
pub open spec fn noted_rating(
    ratings: Seq<(Statistic, Move, i32)>,
    statistic: Statistic,
    mv: Move,
) -> int
    decreases ratings.len(),
{
    if ratings.len() == 0 {
        0
    } else if ratings.last().0 == statistic && ratings.last().1 == mv {
        limited(ratings.last().2 as int, LARGE as int)
    } else {
        noted_rating(ratings.drop_last(), statistic, mv)
    }
}

/// The correction noted for a key, the latest if there are several.
pub open spec fn noted_correction(corrections: Seq<(u64, i32)>, key: u64) -> int
    decreases corrections.len(),
{
    if corrections.len() == 0 {
        0
    } else if corrections.last().0 == key {
        limited(corrections.last().1 as int, MODERATE as int)
    } else {
        noted_correction(corrections.drop_last(), key)
    }
}

/// A move that was good enough, where, and at which depth.
#[derive(Debug, Clone, Copy, PartialEq, Eq, Structural)]
pub struct Lesson {
    pub key: u64,
    pub depth: i32,
    pub best_move: Move,
}

/// By how much an evaluation was off, where, and at which depth.
#[derive(Debug, Clone, Copy, PartialEq, Eq, Structural)]
pub struct Miss {
    pub key: u64,
    pub depth: i32,
    pub best_score: Score,
    pub static_eval: Score,
}

/// Evaluations, corrections and ratings noted in advance, a table of searched
/// positions, and limits on the number of positions and on the depth. What it is
/// told to learn it writes down.
pub struct Notebook {
    evals: Vec<(u64, Score)>,
    corrections: Vec<(u64, i32)>,
    ratings: Vec<(Statistic, Move, i32)>,
    table: Vec<(u64, TTEntry)>,
    lessons: Vec<Lesson>,
    failed_quiets: Vec<Move>,
    failed_noisies: Vec<Move>,
    misses: Vec<Miss>,
    nodes: u64,
    node_limit: u64,
    depth_limit: i32,
    stop: bool,
}

pub struct NotebookModel {
    pub evals: Seq<(u64, Score)>,
    pub corrections: Seq<(u64, i32)>,
    pub ratings: Seq<(Statistic, Move, i32)>,
    pub table: Seq<(u64, TTEntry)>,
    pub lessons: Seq<Lesson>,
    pub failed_quiets: Seq<Move>,
    pub failed_noisies: Seq<Move>,
    pub misses: Seq<Miss>,
    pub nodes: u64,
    pub node_limit: u64,
    pub depth_limit: i32,
    pub stop: bool,
}

/// Adds moves to a list.
fn add_all(list: &mut Vec<Move>, more: &Vec<Move>)
    ensures
        final(list)@ == old(list)@ + more@,
{
    let mut i: usize = 0;
    while i < more.len()
        invariant
            i <= more@.len(),
            list@ == old(list)@ + more@.take(i as int),
        decreases more.len() - i,
    {
        list.push(more[i]);
        i += 1;
        assert(list@ =~= old(list)@ + more@.take(i as int));
    }
    assert(more@.take(i as int) =~= more@);
}

impl Notebook {
    /// A notebook without notes.
    pub fn new(node_limit: u64, depth_limit: i32) -> (r: Notebook)
        ensures
            r.state() == (NotebookModel {
                evals: Seq::empty(),
                corrections: Seq::empty(),
                ratings: Seq::empty(),
                table: Seq::empty(),
                lessons: Seq::empty(),
                failed_quiets: Seq::empty(),
                failed_noisies: Seq::empty(),
                misses: Seq::empty(),
                nodes: 0,
                node_limit,
                depth_limit,
                stop: false,
            }),
    {
        Notebook {
            evals: Vec::new(),
            corrections: Vec::new(),
            ratings: Vec::new(),
            table: Vec::new(),
            lessons: Vec::new(),
            failed_quiets: Vec::new(),
            failed_noisies: Vec::new(),
            misses: Vec::new(),
            nodes: 0,
            node_limit,
            depth_limit,
            stop: false,
        }
    }

    /// Notes the evaluation of a board.
    pub fn note(&mut self, board: &Board, eval: Score)
        ensures
            final(self).state() == (NotebookModel {
                evals: old(self).state().evals.push((board@.hash, eval)),
                ..old(self).state()
            }),
    {
        self.evals.push((board.hash(), eval));
    }

    /// Notes the correction of a board's evaluation.
    pub fn correct(&mut self, board: &Board, correction: i32)
        ensures
            final(self).state() == (NotebookModel {
                corrections: old(self).state().corrections.push((board@.hash, correction)),
                ..old(self).state()
            }),
    {
        self.corrections.push((board.hash(), correction));
    }

    /// Notes how well a move has done.
    pub fn rate(&mut self, statistic: Statistic, mv: Move, rating: i32)
        ensures
            final(self).state() == (NotebookModel {
                ratings: old(self).state().ratings.push((statistic, mv, rating)),
                ..old(self).state()
            }),
    {
        self.ratings.push((statistic, mv, rating));
    }

    /// The number of positions counted.
    pub fn nodes(&self) -> (r: u64)
        ensures
            r == self.state().nodes,
    {
        self.nodes
    }

    /// The moves that were good enough, in the order in which they were learnt.
    pub fn lessons(&self) -> (r: &Vec<Lesson>)
        ensures
            r@ == self.state().lessons,
    {
        &self.lessons
    }

    /// The quiet moves that were not good enough.
    pub fn failed_quiets(&self) -> (r: &Vec<Move>)
        ensures
            r@ == self.state().failed_quiets,
    {
        &self.failed_quiets
    }

    /// The noisy moves that were not good enough.
    pub fn failed_noisies(&self) -> (r: &Vec<Move>)
        ensures
            r@ == self.state().failed_noisies,
    {
        &self.failed_noisies
    }

    /// The evaluations that were off, in the order in which they were learnt.
    pub fn misses(&self) -> (r: &Vec<Miss>)
        ensures
            r@ == self.state().misses,
    {
        &self.misses
    }

    fn rating(&self, statistic: Statistic, mv: Move) -> (r: i32)
        ensures
            r == noted_rating(self.state().ratings, statistic, mv),
            large(r as int),
    {
        let mut i: usize = self.ratings.len();
        assert(self.ratings@.take(i as int) =~= self.ratings@);
        while i > 0
            invariant
                i <= self.ratings@.len(),
                noted_rating(self.ratings@, statistic, mv) == noted_rating(
                    self.ratings@.take(i as int),
                    statistic,
                    mv,
                ),
            decreases i,
        {
            assert(self.ratings@.take(i as int).drop_last() =~= self.ratings@.take(i - 1));
            i -= 1;
            let (s, m, rating) = self.ratings[i];
            if s == statistic && m == mv {
                return limit_to(rating, LARGE);
            }
        }
        0
    }
}

impl Backend for Notebook {
    type State = NotebookModel;

    closed spec fn state(&self) -> NotebookModel {
        NotebookModel {
            evals: self.evals@,
            corrections: self.corrections@,
            ratings: self.ratings@,
            table: self.table@,
            lessons: self.lessons@,
            failed_quiets: self.failed_quiets@,
            failed_noisies: self.failed_noisies@,
            misses: self.misses@,
            nodes: self.nodes,
            node_limit: self.node_limit,
            depth_limit: self.depth_limit,
            stop: self.stop,
        }
    }

    open spec fn stopping(s: NotebookModel) -> bool {
        s.stop || s.nodes >= s.node_limit
    }

    open spec fn after_stopping(s: NotebookModel) -> NotebookModel {
        s
    }

    fn stop_search(&mut self) -> (r: bool) {
        self.stop || self.nodes >= self.node_limit
    }

    open spec fn after_set_stop(s: NotebookModel, stop: bool) -> NotebookModel {
        NotebookModel { stop, ..s }
    }

    fn set_stop(&mut self, stop: bool) {
        self.stop = stop;
    }

    open spec fn after_node(s: NotebookModel) -> NotebookModel {
        NotebookModel { nodes: s.nodes.saturating_add(1), ..s }
    }

    fn count_node(&mut self) {
        self.nodes = self.nodes.saturating_add(1);
    }

    open spec fn after_flush(s: NotebookModel) -> NotebookModel {
        s
    }

    fn flush_nodes(&mut self) {
    }

    open spec fn enough(s: NotebookModel, completed_depth: int) -> bool {
        completed_depth >= s.depth_limit
    }

    open spec fn after_enough(s: NotebookModel, completed_depth: int) -> NotebookModel {
        s
    }

    fn stop_id(&mut self, completed_depth: i32) -> (r: bool) {
        completed_depth >= self.depth_limit
    }

    open spec fn after_deepen(s: NotebookModel, depth: int) -> NotebookModel {
        s
    }

    fn deepen(&mut self, depth: i32) {
    }

    open spec fn entry(s: NotebookModel, key: u64) -> Option<TTEntry> {
        noted_entry(s.table, key)
    }

    open spec fn after_probe(s: NotebookModel, key: u64) -> NotebookModel {
        s
    }

    fn probe(&mut self, key: u64) -> (r: Option<TTEntry>) {
        let mut i: usize = self.table.len();
        assert(self.table@.take(i as int) =~= self.table@);
        while i > 0
            invariant
                i <= self.table@.len(),
                *self == *old(self),
                noted_entry(self.table@, key) == noted_entry(self.table@.take(i as int), key),
            decreases i,
        {
            assert(self.table@.take(i as int).drop_last() =~= self.table@.take(i - 1));
            i -= 1;
            let (k, e) = self.table[i];
            if k == key && -INFINITE <= e.score.0 && e.score.0 <= INFINITE {
                return Some(e);
            }
        }
        None
    }

    open spec fn after_insert(
        s: NotebookModel,
        key: u64,
        best_move: Option<Move>,
        score: int,
        depth: int,
        flag: TTFlag,
    ) -> NotebookModel {
        NotebookModel {
            table: s.table.push(
                (key, TTEntry { best_move, score: Score(score as i32), depth: depth as i32, flag }),
            ),
            ..s
        }
    }

    fn insert(
        &mut self,
        key: u64,
        best_move: Option<Move>,
        score: Score,
        depth: i32,
        flag: TTFlag,
    ) {
        self.table.push((key, TTEntry { best_move, score, depth, flag }));
    }

    open spec fn eval_of(s: NotebookModel, b: BoardModel) -> int {
        noted_eval(s.evals, b.hash)
    }

    fn eval(&self, board: &Board) -> (r: Score) {
        let key = board.hash();
        let mut i: usize = self.evals.len();
        assert(self.evals@.take(i as int) =~= self.evals@);
        while i > 0
            invariant
                i <= self.evals@.len(),
                key == board@.hash,
                noted_eval(self.evals@, key) == noted_eval(self.evals@.take(i as int), key),
            decreases i,
        {
            assert(self.evals@.take(i as int).drop_last() =~= self.evals@.take(i - 1));
            i -= 1;
            let (k, e) = self.evals[i];
            if k == key {
                return e.clamp_mate();
            }
        }
        Score::zero()
    }

    open spec fn corr_of(s: NotebookModel, b: BoardModel) -> int {
        noted_correction(s.corrections, b.hash)
    }

    fn corr(&self, board: &Board) -> (r: i32) {
        let key = board.hash();
        let mut i: usize = self.corrections.len();
        assert(self.corrections@.take(i as int) =~= self.corrections@);
        while i > 0
            invariant
                i <= self.corrections@.len(),
                key == board@.hash,
                noted_correction(self.corrections@, key) == noted_correction(
                    self.corrections@.take(i as int),
                    key,
                ),
            decreases i,
        {
            assert(self.corrections@.take(i as int).drop_last() =~= self.corrections@.take(i - 1));
            i -= 1;
            let (k, correction) = self.corrections[i];
            if k == key {
                return limit_to(correction, MODERATE);
            }
        }
        0
    }

    open spec fn noisy_of(s: NotebookModel, b: BoardModel, mv: Move) -> int {
        noted_rating(s.ratings, Statistic::Noisy, mv)
    }

    fn noisy(&self, board: &Board, mv: Move) -> (r: i32) {
        self.rating(Statistic::Noisy, mv)
    }

    open spec fn quiet_of(s: NotebookModel, b: BoardModel, mv: Move) -> int {
        noted_rating(s.ratings, Statistic::Quiet, mv)
    }

    fn quiet(&self, board: &Board, mv: Move) -> (r: i32) {
        self.rating(Statistic::Quiet, mv)
    }

    open spec fn duck_of(s: NotebookModel, b: BoardModel, mv: Move) -> int {
        noted_rating(s.ratings, Statistic::Duck, mv)
    }

    fn duck(&self, board: &Board, mv: Move) -> (r: i32) {
        self.rating(Statistic::Duck, mv)
    }

    open spec fn cont_of(s: NotebookModel, p: PositionModel, mv: Move) -> int {
        noted_rating(s.ratings, Statistic::Continuation, mv)
    }

    fn cont(&self, pos: &Position, mv: Move) -> (r: i32) {
        self.rating(Statistic::Continuation, mv)
    }

    open spec fn after_update(
        s: NotebookModel,
        p: PositionModel,
        depth: int,
        best_move: Move,
        quiets: Seq<Move>,
        noisies: Seq<Move>,
    ) -> NotebookModel {
        NotebookModel {
            lessons: s.lessons.push(
                Lesson { key: p.board().hash, depth: depth as i32, best_move },
            ),
            failed_quiets: s.failed_quiets + quiets,
            failed_noisies: s.failed_noisies + noisies,
            ..s
        }
    }

    fn update(
        &mut self,
        pos: &Position,
        depth: i32,
        best_move: Move,
        quiets: &Vec<Move>,
        noisies: &Vec<Move>,
    ) {
        self.lessons.push(Lesson { key: pos.board().hash(), depth, best_move });
        add_all(&mut self.failed_quiets, quiets);
        add_all(&mut self.failed_noisies, noisies);
    }

    open spec fn after_update_corr(
        s: NotebookModel,
        b: BoardModel,
        depth: int,
        best_score: int,
        static_eval: int,
    ) -> NotebookModel {
        NotebookModel {
            misses: s.misses.push(
                Miss {
                    key: b.hash,
                    depth: depth as i32,
                    best_score: Score(best_score as i32),
                    static_eval: Score(static_eval as i32),
                },
            ),
            ..s
        }
    }

    fn update_corr(&mut self, board: &Board, depth: i32, best_score: Score, static_eval: Score) {
        self.misses.push(Miss { key: board.hash(), depth, best_score, static_eval });
    }

    open spec fn worth(piece: Piece) -> int {
        match piece {
            Piece::Pawn => 100,
            Piece::Knight => 300,
            Piece::Bishop => 300,
            Piece::Rook => 500,
            Piece::Queen => 900,
            Piece::King => 10_000,
        }
    }

    fn piece_value(piece: Piece) -> (r: i32) {
        match piece {
            Piece::Pawn => 100,
            Piece::Knight => 300,
            Piece::Bishop => 300,
            Piece::Rook => 500,
            Piece::Queen => 900,
            Piece::King => 10_000,
        }
    }

    open spec fn rfp_reach() -> int {
        3
    }

    fn rfp_depth() -> (r: i32) {
        3
    }

    open spec fn rfp_slack(depth: int, improving: bool) -> int {
        if improving {
            200
        } else {
            300
        }
    }

    fn rfp_margin(depth: i32, improving: bool) -> (r: i32) {
        if improving {
            200
        } else {
            300
        }
    }

    open spec fn nmr_slack() -> int {
        50
    }

    fn nmr_margin() -> (r: i32) {
        50
    }

    proof fn limits_are_positive(depth: int, is_quiet: bool, improving: bool) {
    }

    open spec fn ldp_reach(is_quiet: bool) -> int {
        2
    }

    fn ldp_depth(is_quiet: bool) -> (r: i32) {
        2
    }

    open spec fn ldp_limit(depth: int, is_quiet: bool, improving: bool) -> int {
        4
    }

    fn ldp_threshold(depth: i32, is_quiet: bool, improving: bool) -> (r: u8) {
        4
    }

    open spec fn dcp_reach() -> int {
        2
    }

    fn dcp_depth() -> (r: i32) {
        2
    }

    open spec fn dcp_limit(depth: int, improving: bool) -> int {
        4
    }

    fn dcp_threshold(depth: i32, improving: bool) -> (r: u8) {
        4
    }

    open spec fn qsldp_limit() -> int {
        2
    }

    fn qsldp_threshold() -> (r: u8) {
        2
    }

    open spec fn qsdcp_limit() -> int {
        2
    }

    fn qsdcp_threshold() -> (r: u8) {
        2
    }
}

// What the tree and the notebook are for.

/// A game offers a move of a kind on a board exactly if one of its edges leaves the
/// board by it; a further edge takes nothing away, and a move leads where the latest
/// edge for it says.
pub proof fn a_game_offers_its_edges(
    edges: Seq<Edge>,
    more: Edge,
    b: BoardModel,
    filter: MoveFilter,
    mv: Move,
)
    ensures
        offered(edges, b, filter).contains(mv) <==> mv.flag.noisy() == (filter is Noisy)
            && exists|i: int|
            0 <= i < edges.len() && (#[trigger] edges[i]).leaves(b) && edges[i].mv == mv,
        offered(edges, b, filter).contains(mv) ==> offered(edges.push(more), b, filter).contains(
            mv,
        ),
        led_to(edges.push(more), b, mv) == if more.leaves(b) && more.mv == mv {
            more.after@
        } else {
            led_to(edges, b, mv)
        },
{
    assert(edges.push(more).drop_last() =~= edges);
    if offered(edges, b, filter).contains(mv) {
        lemma_offered(edges, b, filter, mv);
        lemma_offered_grows(edges.push(more), b, filter, mv);
    }
    if mv.flag.noisy() == (filter is Noisy) && exists|i: int|
        0 <= i < edges.len() && (#[trigger] edges[i]).leaves(b) && edges[i].mv == mv {
        let i = choose|i: int|
            0 <= i < edges.len() && (#[trigger] edges[i]).leaves(b) && edges[i].mv == mv;
        lemma_edge_is_offered(edges, b, i);
        if filter is Noisy {
            assert(filter == MoveFilter::Noisy);
        } else {
            assert(filter == MoveFilter::Quiet);
        }
    }
}

/// After a null move the other side is to move, without a duck and without en passant,
/// and every piece stands where it stood.
pub proof fn a_null_move_takes_the_duck_away(tree: &GameTree, b: BoardModel)
    ensures
        ({
            let a = tree.passed(b);
            &&& a.stm != b.stm && a.duck is None && a.en_passant is None
            &&& a.pieces == b.pieces && a.colors == b.colors && a.mailbox == b.mailbox
            &&& a.castling == b.castling && a.fmc == b.fmc && a.hmc == b.hmc
        }),
{
}

/// What is stored under a key is what the table then knows of that key; what it knows
/// of other keys stays. Storing, counting and stopping leave evaluations, corrections
/// and ratings as they were.
pub proof fn what_is_stored_is_found(
    s: NotebookModel,
    key: u64,
    other: u64,
    best_move: Option<Move>,
    score: int,
    depth: i32,
    flag: TTFlag,
)
    requires
        in_range(score),
    ensures
        ({
            let a = Notebook::after_insert(s, key, best_move, score, depth as int, flag);
            &&& Notebook::entry(a, key) matches Some(e) && e.best_move == best_move && e.score@
                == score && e.depth == depth && e.flag == flag
            &&& other != key ==> Notebook::entry(a, other) == Notebook::entry(s, other)
            &&& a == (NotebookModel { table: a.table, ..s })
        }),
        Notebook::stopping(Notebook::after_set_stop(s, true)),
        Notebook::stopping(s) ==> Notebook::stopping(Notebook::after_node(s)),
        s.nodes < u64::MAX ==> Notebook::after_node(s).nodes == s.nodes + 1,
        Notebook::after_node(s) == (NotebookModel { nodes: Notebook::after_node(s).nodes, ..s }),
{
    let a = Notebook::after_insert(s, key, best_move, score, depth as int, flag);
    assert(a.table.drop_last() =~= s.table);
}

/// The latest note on a key is the one that counts, and it counts for no other key.
pub proof fn the_latest_note_counts(
    evals: Seq<(u64, Score)>,
    corrections: Seq<(u64, i32)>,
    ratings: Seq<(Statistic, Move, i32)>,
    key: u64,
    other: u64,
    eval: Score,
    number: i32,
    statistic: Statistic,
    other_statistic: Statistic,
    mv: Move,
    other_move: Move,
)
    ensures
        -MATE_BOUND <= eval@ <= MATE_BOUND ==> noted_eval(evals.push((key, eval)), key) == eval@,
        other != key ==> noted_eval(evals.push((key, eval)), other) == noted_eval(evals, other),
        -MODERATE <= number <= MODERATE ==> noted_correction(corrections.push((key, number)), key)
            == number,
        other != key ==> noted_correction(corrections.push((key, number)), other)
            == noted_correction(corrections, other),
        -LARGE <= number <= LARGE ==> noted_rating(
            ratings.push((statistic, mv, number)),
            statistic,
            mv,
        ) == number,
        other_statistic != statistic || other_move != mv ==> noted_rating(
            ratings.push((statistic, mv, number)),
            other_statistic,
            other_move,
        ) == noted_rating(ratings, other_statistic, other_move),
{
    assert(evals.push((key, eval)).drop_last() =~= evals);
    assert(corrections.push((key, number)).drop_last() =~= corrections);
    assert(ratings.push((statistic, mv, number)).drop_last() =~= ratings);
}

/// A notebook whose table is empty answers the same all along a quiescence search.
pub proof fn an_empty_table_is_steady(evals: Seq<(u64, Score)>, corrections: Seq<(u64, i32)>)
    ensures
        ({
            let calm = |s: NotebookModel|
                s.table.len() == 0 && s.evals == evals && s.corrections == corrections;
            let e = |b: BoardModel|
                kept_tame(noted_eval(evals, b.hash) + noted_correction(corrections, b.hash));
            steady::<Notebook>(calm, e) && tame(e)
        }),
{
}

} // verus!
