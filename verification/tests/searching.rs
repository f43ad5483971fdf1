use duck_search::board::board::Board;
use duck_search::common::moves::{Move, MoveFlag};
use duck_search::common::types::{Color, File, Piece, Rank, Square};
use duck_search::position::Position;
use duck_search::rules::Rules;
use duck_search::score::{Score, INFINITE, MATE, MATE_BOUND};
use duck_search::search::backend::{Backend, TTEntry, TTFlag};
use duck_search::search::deepening::{Deepen, Deepening, SearchInfo};
use duck_search::search::leaving::Leave;
use duck_search::search::model::NodeType;
use duck_search::search::quiescence::{adjust_eval, qsearch, update_pv};
use duck_search::search::search::{is_improving, search};
use duck_search::search::thread::{PrincipalVariation, ThreadData};
use duck_search::search::MAX_PLY;
use duck_search::tree::{GameTree, Lesson, Miss, Notebook};

fn sq(name: &str) -> Square {
    let bytes = name.as_bytes();
    Square::new(File::from_index(bytes[0] - b'a'), Rank::from_index(bytes[1] - b'1'))
}

fn quiet(src: &str, dest: &str, duck: &str) -> Move {
    Move::new(sq(src), sq(dest), sq(duck), MoveFlag::Normal)
}

/// A board that differs from those with other numbers, with a rook to take on b7
/// if White is to move, and on b2 if Black is.
fn board(number: usize, stm: Color) -> Board {
    let mut board = Board::empty();
    board.put(sq("e1"), Piece::King, Color::White);
    board.put(sq("e8"), Piece::King, Color::Black);
    board.put(Square::from_index(24 + number), Piece::Pawn, Color::White);
    match stm {
        Color::White => board.put(sq("b7"), Piece::Rook, Color::Black),
        Color::Black => {
            board.put(sq("b2"), Piece::Rook, Color::White);
            board.toggle_stm();
        }
    }
    board
}

fn capture(duck: &str) -> Move {
    Move::new(sq("a7"), sq("b7"), sq(duck), MoveFlag::Capture)
}

fn line(pv: &PrincipalVariation) -> Vec<Move> {
    (0..pv.len()).map(|i| pv.get(i)).collect()
}

/// Searches from the root with the whole window.
fn root(
    start: &Board,
    depth: i32,
    tree: &GameTree,
    notes: &mut Notebook,
) -> (i32, Vec<Move>, ThreadData) {
    let mut pos = Position::new(*start);
    let mut thread = ThreadData::new(0);
    let score = search(
        &mut pos,
        &mut thread,
        tree,
        notes,
        NodeType::Root,
        Score(-INFINITE),
        Score(INFINITE),
        depth,
        0,
    );
    assert_eq!(pos.len(), 0);
    assert_eq!(pos.board().hash(), start.hash());
    let pv = line(thread.pv(0));
    (score.0, pv, thread)
}

/// Searches a node off the principal variation with the window from 9 to 10.
fn narrow(
    thread: &mut ThreadData,
    start: &Board,
    depth: i32,
    ply: usize,
    tree: &GameTree,
    notes: &mut Notebook,
) -> i32 {
    let mut pos = Position::new(*start);
    search(
        &mut pos,
        thread,
        tree,
        notes,
        NodeType::NonPV,
        Score(9),
        Score(10),
        depth,
        ply,
    )
    .0
}

#[test]
fn scores_of_mates() {
    assert_eq!(Score::mated(0), Score(-32_000));
    assert_eq!(Score::mated(5), Score(-31_995));
    assert_eq!(Score::mate(5), Score(31_995));
    assert_eq!(Score::mate(5).negated(), Score::mated(5));
    assert!(Score::mate(MAX_PLY).is_mate());
    assert!(Score::mated(MAX_PLY).is_mate());
    assert!(Score::mate(3).0 > Score::mate(4).0);
    assert!(Score::mated(3).0 < Score::mated(4).0);
    assert!(!Score(MATE_BOUND).is_mate());
    assert!(Score(MATE_BOUND + 1).is_mate());
    assert!(!Score::draw().is_mate());
    assert_eq!(Score::zero(), Score::draw());
    assert_eq!(Score(MATE).clamp_mate(), Score(MATE_BOUND));
    assert_eq!(Score(-MATE).clamp_mate(), Score(-MATE_BOUND));
    assert_eq!(Score(123).clamp_mate(), Score(123));
    assert_eq!(Score::infinite(), Score(INFINITE));
}

#[test]
fn evaluations_are_corrected_and_clamped() {
    assert_eq!(adjust_eval(Score(100), -30), Score(70));
    assert_eq!(adjust_eval(Score(30_990), 50), Score(31_000));
    assert_eq!(adjust_eval(Score(-30_990), -50), Score(-31_000));
}

#[test]
fn bounds_settle_windows() {
    let (alpha, beta) = (Score(0), Score(50));
    assert!(TTFlag::Exact.bounds_match(Score(20), alpha, beta));
    assert!(TTFlag::Lower.bounds_match(Score(50), alpha, beta));
    assert!(!TTFlag::Lower.bounds_match(Score(49), alpha, beta));
    assert!(TTFlag::Upper.bounds_match(Score(0), alpha, beta));
    assert!(!TTFlag::Upper.bounds_match(Score(1), alpha, beta));
}

#[test]
fn positions_take_moves_back() {
    let start = board(0, Color::White);
    let mut tree = GameTree::new();
    let m = quiet("e1", "e2", "h1");
    tree.add(&start, m, board(1, Color::Black));
    let mut pos = Position::new(start);
    pos.make_move(&tree, m);
    assert_eq!(pos.len(), 1);
    assert_eq!(pos.played_move(0), Some(m));
    assert_eq!(pos.board().hash(), board(1, Color::Black).hash());
    assert_eq!(pos.board_before(0).hash(), start.hash());
    pos.make_null_move(&tree);
    assert_eq!(pos.played_move(1), None);
    assert_eq!(pos.board().stm(), Color::White);
    assert!(!pos.repetition(&tree));
    pos.make_null_move(&tree);
    assert!(pos.repetition(&tree));
    pos.unmake_move();
    pos.unmake_move();
    pos.unmake_move();
    assert_eq!(pos.len(), 0);
    assert_eq!(pos.board().hash(), start.hash());
}

#[test]
fn a_null_move_takes_the_duck_off_the_board() {
    let mut start = board(0, Color::White);
    start.set_duck(Some(sq("h5")));
    let after = GameTree::new().play_null(&start);
    assert_eq!(after.duck(), None);
    assert_eq!(after.stm(), Color::Black);
}

#[test]
fn the_better_move_is_found() {
    let start = board(0, Color::White);
    let (a, b) = (board(1, Color::Black), board(2, Color::Black));
    let (m1, m2) = (quiet("e1", "e2", "h1"), quiet("e1", "d1", "h1"));
    let mut tree = GameTree::new();
    tree.add(&start, m1, a);
    tree.add(&start, m2, b);
    let mut notes = Notebook::new(1000, 1);
    notes.note(&a, Score(50));
    notes.note(&b, Score(-30));
    let (score, pv, thread) = root(&start, 1, &tree, &mut notes);
    assert_eq!(score, 30);
    assert_eq!(pv, vec![m2]);
    assert_eq!(thread.mv(0), Some(m2));
    assert_eq!(thread.sel_depth, 1);
    assert!(!thread.stop);
    // One position for the first move, two for the second, which is searched again
    // with the whole window.
    assert_eq!(notes.nodes(), 3);
    assert_eq!(
        notes.probe(start.hash()),
        Some(TTEntry { best_move: Some(m2), score: Score(30), depth: 1, flag: TTFlag::Exact })
    );
    assert_eq!(
        notes.misses(),
        &vec![Miss {
            key: start.hash(),
            depth: 1,
            best_score: Score(30),
            static_eval: Score(0)
        }]
    );
    assert!(notes.lessons().is_empty());
}

#[test]
fn a_worse_move_is_searched_once() {
    let start = board(0, Color::White);
    let (a, b) = (board(1, Color::Black), board(2, Color::Black));
    let (m1, m2) = (quiet("e1", "e2", "h1"), quiet("e1", "d1", "h1"));
    let mut tree = GameTree::new();
    tree.add(&start, m1, a);
    tree.add(&start, m2, b);
    let mut notes = Notebook::new(1000, 1);
    notes.note(&a, Score(-50));
    notes.note(&b, Score(30));
    let (score, pv, _) = root(&start, 1, &tree, &mut notes);
    assert_eq!((score, pv), (50, vec![m1]));
    assert_eq!(notes.nodes(), 2);
}

#[test]
fn a_line_is_as_long_as_the_search_is_deep() {
    let start = board(0, Color::White);
    let (a, b) = (board(1, Color::Black), board(2, Color::White));
    let (m1, m2) = (quiet("e1", "e2", "h1"), quiet("e8", "e7", "h1"));
    let mut tree = GameTree::new();
    tree.add(&start, m1, a);
    tree.add(&a, m2, b);
    let mut notes = Notebook::new(1000, 1);
    notes.note(&b, Score(25));
    let (score, pv, thread) = root(&start, 2, &tree, &mut notes);
    assert_eq!((score, pv), (25, vec![m1, m2]));
    assert_eq!(thread.sel_depth, 2);
}

#[test]
fn a_captured_king_is_a_loss() {
    let mut start = Board::empty();
    start.put(sq("e8"), Piece::King, Color::Black);
    let tree = GameTree::new();
    let mut notes = Notebook::new(1000, 1);
    assert_eq!(root(&start, 3, &tree, &mut notes).0, -32_000);
    let mut thread = ThreadData::new(0);
    assert_eq!(narrow(&mut thread, &start, 2, 7, &tree, &mut notes), -31_993);
    assert_eq!(narrow(&mut thread, &start, 0, 7, &tree, &mut notes), -31_993);
}

#[test]
fn a_hundred_moves_without_progress_are_a_draw() {
    let mut start = board(0, Color::White);
    start.set_clocks(90, 100);
    let tree = GameTree::new();
    let mut notes = Notebook::new(1000, 1);
    notes.note(&start, Score(700));
    assert_eq!(root(&start, 3, &tree, &mut notes).0, 0);
    let mut thread = ThreadData::new(0);
    assert_eq!(narrow(&mut thread, &start, 0, 1, &tree, &mut notes), 0);
}

#[test]
fn a_side_without_a_move_wins() {
    let start = board(0, Color::White);
    let tree = GameTree::new();
    let mut notes = Notebook::new(1000, 1);
    let (score, pv, _) = root(&start, 3, &tree, &mut notes);
    assert_eq!(score, 32_000);
    assert_eq!(pv, Vec::new());
    assert_eq!(notes.probe(start.hash()), None);
    let mut thread = ThreadData::new(0);
    assert_eq!(narrow(&mut thread, &start, 1, 4, &tree, &mut notes), 31_996);
}

#[test]
fn a_repeated_position_is_a_draw() {
    let start = board(0, Color::White);
    let a = board(1, Color::Black);
    let (m1, m2) = (quiet("e1", "e2", "h1"), quiet("e8", "e7", "h1"));
    let mut tree = GameTree::new();
    tree.add(&start, m1, a);
    tree.add(&a, m2, start);
    let mut notes = Notebook::new(1000, 1);
    notes.note(&start, Score(900));
    notes.note(&a, Score(900));
    let (score, pv, _) = root(&start, 3, &tree, &mut notes);
    assert_eq!((score, pv), (0, vec![m1, m2]));
}

#[test]
fn a_move_that_lets_the_king_be_captured_is_lost() {
    let start = board(0, Color::White);
    let mut exposed = board(1, Color::Black);
    exposed.put(sq("e5"), Piece::Rook, Color::Black);
    let mut tree = GameTree::new();
    let bad = quiet("e2", "d2", "h1");
    tree.add(&start, bad, exposed);
    let mut notes = Notebook::new(1000, 1);
    notes.note(&exposed, Score(-500));
    let (score, pv, _) = root(&start, 1, &tree, &mut notes);
    assert_eq!((score, pv), (-31_998, vec![bad]));
    // It was not searched.
    assert_eq!(notes.nodes(), 0);
    // With the duck in the rook's way it is searched, and goes by the evaluation.
    let good = quiet("e2", "d2", "e3");
    tree.add(&start, good, exposed);
    let (score, pv, _) = root(&start, 1, &tree, &mut notes);
    assert_eq!((score, pv), (500, vec![good]));
}

#[test]
fn a_lost_move_has_no_continuation() {
    let (start, other) = (board(0, Color::White), board(5, Color::White));
    let (a, b) = (board(1, Color::Black), board(2, Color::White));
    let mut exposed = board(3, Color::Black);
    exposed.put(sq("e5"), Piece::Rook, Color::Black);
    let (m1, m2) = (quiet("e1", "e2", "h1"), quiet("e8", "e7", "h1"));
    let bad = quiet("e2", "d2", "h1");
    let mut tree = GameTree::new();
    tree.add(&start, m1, a);
    tree.add(&a, m2, b);
    tree.add(&other, bad, exposed);
    let mut notes = Notebook::new(1000, 1);
    let mut thread = ThreadData::new(0);
    for (from, expected) in [(start, vec![m1, m2]), (other, vec![bad])] {
        let mut pos = Position::new(from);
        search(
            &mut pos,
            &mut thread,
            &tree,
            &mut notes,
            NodeType::Root,
            Score(-INFINITE),
            Score(INFINITE),
            2,
            0,
        );
        assert_eq!(line(thread.pv(0)), expected);
    }
}

#[test]
fn a_lost_move_that_draws_is_a_draw() {
    let start = board(0, Color::White);
    let mut exposed = board(1, Color::Black);
    exposed.put(sq("e5"), Piece::Rook, Color::Black);
    exposed.set_clocks(90, 100);
    let mut tree = GameTree::new();
    tree.add(&start, quiet("e2", "d2", "h1"), exposed);
    let mut notes = Notebook::new(1000, 1);
    assert_eq!(root(&start, 1, &tree, &mut notes).0, 0);
}

#[test]
fn the_table_settles_a_node() {
    let start = board(0, Color::White);
    let a = board(1, Color::Black);
    let m = quiet("e1", "e2", "h1");
    let mut tree = GameTree::new();
    tree.add(&start, m, a);
    let mut notes = Notebook::new(1000, 1);
    notes.insert(a.hash(), None, Score(77), 1, TTFlag::Exact);
    assert_eq!(root(&start, 2, &tree, &mut notes).0, -77);
    // An entry that is not deep enough does not: Black, without a move, wins.
    assert_eq!(root(&start, 3, &tree, &mut notes).0, -31_999);
}

#[test]
fn the_table_does_not_settle_the_root() {
    let start = board(0, Color::White);
    let tree = GameTree::new();
    let mut notes = Notebook::new(1000, 1);
    notes.insert(start.hash(), None, Score(77), 9, TTFlag::Exact);
    assert_eq!(root(&start, 2, &tree, &mut notes).0, 32_000);
}

#[test]
fn the_table_settles_a_quiescence_node() {
    let start = board(0, Color::White);
    let tree = GameTree::new();
    let mut notes = Notebook::new(1000, 1);
    notes.insert(start.hash(), None, Score(60), -3, TTFlag::Lower);
    let mut thread = ThreadData::new(0);
    assert_eq!(narrow(&mut thread, &start, 0, 1, &tree, &mut notes), 60);
    // A lower bound below beta settles nothing.
    notes.insert(start.hash(), None, Score(5), -3, TTFlag::Lower);
    assert_eq!(narrow(&mut thread, &start, 0, 1, &tree, &mut notes), 0);
}

#[test]
fn a_duckless_lower_bound_settles_a_narrow_node() {
    let mut start = board(0, Color::White);
    start.set_duck(Some(sq("h5")));
    let m = quiet("e1", "e2", "h1");
    let mut tree = GameTree::new();
    tree.add(&start, m, board(1, Color::Black));
    let mut thread = ThreadData::new(0);
    let mut notes = Notebook::new(1000, 1);
    notes.insert(start.duckless_hash(), Some(m), Score(50), 3, TTFlag::Lower);
    assert_eq!(narrow(&mut thread, &start, 3, 1, &tree, &mut notes), 50);
    assert_eq!(thread.mv(1), Some(m));
}

#[test]
fn a_duckless_entry_with_an_illegal_move_settles_nothing() {
    let mut start = board(0, Color::White);
    start.set_duck(Some(sq("h5")));
    let tree = GameTree::new();
    let mut thread = ThreadData::new(0);
    let mut notes = Notebook::new(1000, 1);
    let m = quiet("e1", "e2", "h1");
    notes.insert(start.duckless_hash(), Some(m), Score(50), 3, TTFlag::Lower);
    assert_eq!(narrow(&mut thread, &start, 3, 1, &tree, &mut notes), 31_999);
}

#[test]
fn a_duckless_entry_gives_a_move_to_try_first() {
    let mut start = board(0, Color::White);
    start.set_duck(Some(sq("h5")));
    let (m1, m2) = (quiet("e1", "e2", "h1"), quiet("e1", "d1", "h1"));
    let mut tree = GameTree::new();
    tree.add(&start, m1, board(1, Color::Black));
    tree.add(&start, m2, board(2, Color::Black));
    let mut notes = Notebook::new(1000, 1);
    notes.insert(start.duckless_hash(), Some(m2), Score(50), 0, TTFlag::Lower);
    // Both moves score the same, so the one searched first heads the line.
    let (score, pv, _) = root(&start, 1, &tree, &mut notes);
    assert_eq!((score, pv), (0, vec![m2]));
}

#[test]
fn a_search_that_has_to_stop_scores_nothing() {
    let start = board(0, Color::White);
    let (m1, m2) = (quiet("e1", "e2", "h1"), quiet("e1", "d1", "h1"));
    let mut tree = GameTree::new();
    tree.add(&start, m1, board(1, Color::Black));
    tree.add(&start, m2, board(2, Color::Black));
    let mut notes = Notebook::new(0, 1);
    let (score, pv, thread) = root(&start, 4, &tree, &mut notes);
    assert_eq!(score, 0);
    // The root has a line all the same.
    assert_eq!(pv, vec![m1]);
    assert!(thread.stop);
    assert!(notes.stop_search());
    assert_eq!(notes.probe(start.hash()), None);
}

#[test]
fn a_stopped_thread_asks_no_more() {
    let start = board(0, Color::White);
    let tree = GameTree::new();
    let mut notes = Notebook::new(1000, 1);
    let mut thread = ThreadData::new(0);
    thread.stop = true;
    assert_eq!(narrow(&mut thread, &start, 3, 1, &tree, &mut notes), 0);
    assert_eq!(narrow(&mut thread, &start, 0, 1, &tree, &mut notes), 0);
    assert!(thread.stop);
}

#[test]
fn an_evaluation_far_above_beta_settles_a_shallow_narrow_node() {
    let start = board(0, Color::White);
    let tree = GameTree::new();
    let mut thread = ThreadData::new(0);
    let mut notes = Notebook::new(1000, 1);
    notes.note(&start, Score(210));
    assert_eq!(narrow(&mut thread, &start, 3, 1, &tree, &mut notes), 210);
    assert_eq!(thread.static_eval(1), Some(Score(210)));
    // Not at depth four, and not by less than the margin.
    assert_eq!(narrow(&mut thread, &start, 4, 1, &tree, &mut notes), 31_999);
    notes.note(&start, Score(209));
    assert_eq!(narrow(&mut thread, &start, 3, 1, &tree, &mut notes), 31_999);
    // The correction counts.
    notes.correct(&start, 1);
    assert_eq!(narrow(&mut thread, &start, 3, 1, &tree, &mut notes), 210);
    // Two plies on, the same evaluation is no improvement, and the margin is wider.
    assert_eq!(narrow(&mut thread, &start, 3, 3, &tree, &mut notes), 31_997);
}

#[test]
fn improving_compares_with_the_same_sides_last_turn() {
    let start = board(0, Color::White);
    let tree = GameTree::new();
    let mut thread = ThreadData::new(0);
    let mut notes = Notebook::new(1000, 1);
    assert!(is_improving(&thread, 0, Score(-500)));
    assert!(is_improving(&thread, 3, Score(-500)));
    notes.note(&start, Score(300));
    narrow(&mut thread, &start, 1, 1, &tree, &mut notes);
    assert!(!is_improving(&thread, 3, Score(300)));
    assert!(is_improving(&thread, 3, Score(301)));
    // The ply before has no evaluation, so an earlier one counts.
    assert!(!is_improving(&thread, 5, Score(300)));
    assert!(is_improving(&thread, 5, Score(301)));
    assert!(is_improving(&thread, 4, Score(-500)));
}

#[test]
fn a_null_move_that_fails_high_is_confirmed() {
    let mut earlier = board(0, Color::White);
    earlier.set_duck(Some(sq("h5")));
    let m = quiet("e1", "e2", "h1");
    let mut tree = GameTree::new();
    tree.add(&earlier, m, board(1, Color::Black));
    let mut thread = ThreadData::new(0);
    let mut notes = Notebook::new(1000, 1);
    // A best move at the ply before, without which no null move is tried.
    notes.insert(earlier.duckless_hash(), Some(m), Score(50), 3, TTFlag::Lower);
    narrow(&mut thread, &earlier, 3, 1, &tree, &mut notes);
    assert_eq!(thread.mv(1), Some(m));
    let start = board(2, Color::White);
    let reply = quiet("e1", "d1", "h1");
    let after = board(3, Color::Black);
    tree.add(&start, reply, after);
    notes.note(&start, Score(100));
    let passed = tree.play_null(&start);
    notes.insert(passed.hash(), None, Score(-100), 9, TTFlag::Exact);
    // The confirming search, to half the depth, finds its score in the table.
    notes.insert(after.hash(), None, Score(-40), 1, TTFlag::Exact);
    assert_eq!(narrow(&mut thread, &start, 4, 2, &tree, &mut notes), 40);
    assert_eq!(thread.nmr_ply, None);
    assert_eq!(
        notes.lessons(),
        &vec![Lesson { key: start.hash(), depth: 2, best_move: reply }]
    );
    // Inside another null move search it needs no confirmation.
    thread.nmr_ply = Some(1);
    assert_eq!(narrow(&mut thread, &start, 4, 2, &tree, &mut notes), 100);
    assert_eq!(thread.nmr_ply, Some(1));
}

#[test]
fn a_move_above_beta_ends_the_node_and_is_learnt() {
    let mut start = board(0, Color::White);
    start.set_duck(Some(sq("h5")));
    let (a, b, c) = (board(1, Color::Black), board(2, Color::Black), board(3, Color::Black));
    let (q1, q2, q3) = (
        quiet("e1", "e2", "h1"),
        quiet("e1", "d1", "h2"),
        quiet("e1", "f1", "h3"),
    );
    let mut tree = GameTree::new();
    tree.add(&start, q1, a);
    tree.add(&start, q2, b);
    tree.add(&start, q3, c);
    tree.add(&start, capture("h4"), board(4, Color::Black));
    let mut notes = Notebook::new(1000, 1);
    notes.note(&a, Score(5));
    notes.note(&b, Score(-40));
    notes.note(&c, Score(-90));
    let mut thread = ThreadData::new(0);
    assert_eq!(narrow(&mut thread, &start, 1, 1, &tree, &mut notes), 40);
    assert_eq!(thread.mv(1), Some(q2));
    assert_eq!(notes.lessons(), &vec![Lesson { key: start.hash(), depth: 1, best_move: q2 }]);
    assert_eq!(notes.failed_quiets(), &vec![q1]);
    assert_eq!(notes.failed_noisies(), &vec![capture("h4")]);
    let stored = TTEntry {
        best_move: Some(q2),
        score: Score(40),
        depth: 1,
        flag: TTFlag::Lower,
    };
    assert_eq!(notes.probe(start.hash()), Some(stored));
    assert_eq!(notes.probe(start.duckless_hash()), Some(stored));
    assert_eq!(
        notes.misses(),
        &vec![Miss {
            key: start.hash(),
            depth: 1,
            best_score: Score(40),
            static_eval: Score(0)
        }]
    );
}

#[test]
fn without_a_move_above_alpha_the_score_is_an_upper_bound() {
    let mut start = board(0, Color::White);
    start.set_duck(Some(sq("h5")));
    let a = board(1, Color::Black);
    let mut tree = GameTree::new();
    tree.add(&start, quiet("e1", "e2", "h1"), a);
    let mut notes = Notebook::new(1000, 1);
    notes.note(&a, Score(5));
    let mut thread = ThreadData::new(0);
    assert_eq!(narrow(&mut thread, &start, 1, 1, &tree, &mut notes), -5);
    assert_eq!(thread.mv(1), None);
    assert_eq!(
        notes.probe(start.hash()),
        Some(TTEntry { best_move: None, score: Score(-5), depth: 1, flag: TTFlag::Upper })
    );
    assert_eq!(notes.probe(start.duckless_hash()), None);
}

#[test]
fn late_duck_squares_are_pruned() {
    let start = board(0, Color::White);
    let mut tree = GameTree::new();
    for (i, duck) in ["h1", "h2", "h3", "h4", "h5", "h6"].iter().enumerate() {
        tree.add(&start, quiet("e1", "e2", duck), board(1 + i, Color::Black));
    }
    let mut notes = Notebook::new(1000, 1);
    root(&start, 1, &tree, &mut notes);
    assert_eq!(notes.nodes(), 4);
}

#[test]
fn crowded_duck_squares_are_pruned_off_the_principal_variation() {
    let start = board(0, Color::White);
    let mut tree = GameTree::new();
    for (i, dest) in ["e2", "d1", "d2", "f1", "f2"].iter().enumerate() {
        tree.add(&start, quiet("e1", dest, "h1"), board(1 + i, Color::Black));
    }
    let mut notes = Notebook::new(1000, 1);
    let mut thread = ThreadData::new(0);
    narrow(&mut thread, &start, 1, 1, &tree, &mut notes);
    // The node itself and four of the five moves.
    assert_eq!(notes.nodes(), 5);
    let mut whole = Notebook::new(1000, 1);
    root(&start, 1, &tree, &mut whole);
    assert_eq!(whole.nodes(), 5);
}

#[test]
fn a_refuted_duck_square_refutes_those_that_do_not_stop_the_reply() {
    let start = board(0, Color::White);
    let (a, b) = (board(1, Color::Black), board(2, Color::Black));
    let (c, d) = (board(3, Color::White), board(4, Color::White));
    let reply = quiet("d8", "d5", "a6");
    let first = quiet("e1", "e2", "h1");
    for (duck, score, head) in [
        ("h2", -300, first),
        ("d7", 900, quiet("e1", "e2", "d7")),
        ("d5", 900, quiet("e1", "e2", "d5")),
        ("a6", 900, quiet("e1", "e2", "a6")),
        ("d8", -300, first),
    ] {
        let mut tree = GameTree::new();
        tree.add(&start, first, a);
        tree.add(&start, quiet("e1", "e2", duck), b);
        tree.add(&a, reply, c);
        tree.add(&b, reply, d);
        let mut notes = Notebook::new(1000, 1);
        notes.note(&c, Score(-300));
        notes.note(&d, Score(900));
        let (found, pv, _) = root(&start, 2, &tree, &mut notes);
        assert_eq!((found, pv), (score, vec![head, reply]));
    }
}

#[test]
fn late_quiet_moves_are_searched_less_deep() {
    let start = board(0, Color::White);
    let mut tree = GameTree::new();
    let dests = ["d1", "d2", "e2", "f1", "f2", "c1", "c2", "g1", "g2"];
    for (i, dest) in dests.iter().enumerate() {
        tree.add(&start, quiet("e1", dest, "h1"), board(1 + i, Color::Black));
    }
    let mut notes = Notebook::new(1000, 1);
    for i in 0..dests.len() {
        // Each stored score is deep enough for a search to depth one only.
        let depth = if i < 7 { 2 } else { 1 };
        notes.insert(board(1 + i, Color::Black).hash(), None, Score(3), depth, TTFlag::Exact);
    }
    // All moves score alike, so the last two are settled at the reduced depth.
    let (score, pv, _) = root(&start, 3, &tree, &mut notes);
    assert_eq!((score, pv), (-3, vec![quiet("e1", "d1", "h1")]));
    assert_eq!(notes.nodes(), 9);
}

#[test]
fn a_quiescence_search_stands_pat_or_captures() {
    let start = board(0, Color::White);
    let c = board(1, Color::Black);
    let take = capture("h1");
    let mut tree = GameTree::new();
    tree.add(&start, take, c);
    tree.add(&start, quiet("e1", "e2", "h1"), board(2, Color::Black));
    let mut notes = Notebook::new(1000, 1);
    notes.note(&c, Score(-200));
    notes.note(&board(2, Color::Black), Score(-900));
    let mut pos = Position::new(start);
    let mut thread = ThreadData::new(0);
    let wide = (Score(-INFINITE), Score(INFINITE));
    let score = qsearch(
        &mut pos,
        &mut thread,
        &tree,
        &mut notes,
        NodeType::PV,
        wide.0,
        wide.1,
        1,
    );
    assert_eq!(score, Score(200));
    assert_eq!(thread.mv(1), Some(take));
    assert_eq!(line(thread.pv(1)), vec![take]);
    assert_eq!(notes.nodes(), 2);
    // A line is put in front of it.
    let m = quiet("e8", "e7", "a1");
    update_pv(&mut thread, m, 0);
    assert_eq!(line(thread.pv(0)), vec![m, take]);
    // Standing pat is better than a bad capture.
    notes.note(&c, Score(300));
    notes.note(&start, Score(40));
    let score = qsearch(
        &mut pos,
        &mut thread,
        &tree,
        &mut notes,
        NodeType::PV,
        wide.0,
        wide.1,
        1,
    );
    assert_eq!(score, Score(40));
    assert_eq!(thread.mv(1), None);
    assert_eq!(line(thread.pv(1)), Vec::new());
    assert_eq!(pos.len(), 0);
}

#[test]
fn a_quiescence_search_prunes_ducks() {
    let start = board(0, Color::White);
    let mut tree = GameTree::new();
    for (i, duck) in ["h1", "h2", "h3"].iter().enumerate() {
        tree.add(&start, capture(duck), board(1 + i, Color::Black));
    }
    let mut notes = Notebook::new(1000, 1);
    let mut pos = Position::new(start);
    let mut thread = ThreadData::new(0);
    qsearch(
        &mut pos,
        &mut thread,
        &tree,
        &mut notes,
        NodeType::PV,
        Score(-INFINITE),
        Score(INFINITE),
        1,
    );
    assert_eq!(notes.nodes(), 3);
}

#[test]
fn a_quiescence_search_ends_at_the_last_ply() {
    let start = board(0, Color::White);
    let tree = GameTree::new();
    let mut notes = Notebook::new(1000, 1);
    notes.note(&start, Score(-66));
    let mut thread = ThreadData::new(0);
    assert_eq!(narrow(&mut thread, &start, 0, MAX_PLY, &tree, &mut notes), -66);
}

/// Runs a whole search: depth after depth until it is cut short or settled.
fn deepen(start: &Board, id: usize, tree: &GameTree, notes: &mut Notebook) -> (Deepening, usize) {
    let mut pos = Position::new(*start);
    let mut thread = ThreadData::new(id);
    let mut state = Deepening::new();
    let mut reports = 0;
    while state.depth() < 10 {
        if state.iterate(&mut pos, &mut thread, tree, notes) {
            break;
        }
        reports += 1;
        if state.settle(&mut thread, notes) {
            assert!(thread.stop);
            break;
        }
    }
    assert_eq!(pos.len(), 0);
    (state, reports)
}

#[test]
fn deepening_goes_to_the_depth_limit() {
    let start = board(0, Color::White);
    let (a, b) = (board(1, Color::Black), board(2, Color::White));
    let (m1, m2) = (quiet("e1", "e2", "h1"), quiet("e8", "e7", "h1"));
    let mut tree = GameTree::new();
    tree.add(&start, m1, a);
    tree.add(&a, m2, b);
    let mut notes = Notebook::new(1000, 2);
    notes.note(&a, Score(-10));
    notes.note(&b, Score(25));
    let (state, reports) = deepen(&start, 0, &tree, &mut notes);
    assert_eq!(state.completed_depth(), 2);
    assert_eq!(state.depth(), 3);
    assert_eq!(state.score(), Some(Score(25)));
    assert_eq!(line(state.pv()), vec![m1, m2]);
    assert_eq!(reports, 2);
    assert!(notes.stop_search());
}

#[test]
fn a_depth_cut_short_does_not_count_but_the_first_does() {
    let start = board(0, Color::White);
    let m = quiet("e1", "e2", "h1");
    let mut tree = GameTree::new();
    tree.add(&start, m, board(1, Color::Black));
    let mut notes = Notebook::new(0, 9);
    let (state, reports) = deepen(&start, 0, &tree, &mut notes);
    assert_eq!(state.completed_depth(), 1);
    assert_eq!(state.depth(), 2);
    assert_eq!(state.score(), Some(Score(0)));
    assert_eq!(line(state.pv()), vec![m]);
    assert_eq!(reports, 1);
}

#[test]
fn only_the_main_thread_settles() {
    let start = board(0, Color::White);
    let tree = GameTree::new();
    let mut notes = Notebook::new(1000, 1);
    let (state, reports) = deepen(&start, 3, &tree, &mut notes);
    assert_eq!(state.completed_depth(), 9);
    assert_eq!(reports, 9);
    assert!(!notes.stop_search());
}

#[test]
fn nothing_is_known_before_the_first_depth() {
    let state = Deepening::new();
    assert_eq!(state.depth(), 1);
    assert_eq!(state.completed_depth(), 0);
    assert_eq!(state.score(), None);
    assert_eq!(state.pv().len(), 0);
}

#[test]
fn reports_come_from_the_main_thread() {
    assert!(SearchInfo::Full.reports_depths(0));
    assert!(!SearchInfo::Full.reports_depths(1));
    assert!(!SearchInfo::Result.reports_depths(0));
    assert!(SearchInfo::Result.reports_result(0));
    assert!(SearchInfo::Full.reports_result(0));
    assert!(!SearchInfo::Silent.reports_result(0));
    assert!(!SearchInfo::Full.reports_result(2));
}

/// One thread does what is next for it.
fn take_step(
    id: usize,
    count: &mut u32,
    states: &mut Vec<Leave>,
    done: &mut Vec<(usize, Leave)>,
) {
    let mut seen = 0;
    match states[id] {
        Leave::CountDown => {
            seen = *count;
            *count -= 1;
        }
        Leave::Look => seen = *count,
        Leave::Publish => *count = 0,
        Leave::Gone => return,
        _ => {}
    }
    done.push((id, states[id]));
    states[id] = states[id].next(id, seen, id == 0);
}

/// Lets the threads count themselves out in the given order, and returns what each
/// did until all had left. Once it has left, the main thread goes on after each of
/// the others.
fn leave_in_order(order: &[usize]) -> Vec<(usize, Leave)> {
    let mut count = order.len() as u32 + 1;
    let mut states = vec![Leave::CountDown; order.len()];
    let mut done = Vec::new();
    for id in order {
        take_step(*id, &mut count, &mut states, &mut done);
        if states[0] != Leave::CountDown {
            take_step(0, &mut count, &mut states, &mut done);
        }
    }
    for _ in 0..10 {
        for id in order {
            take_step(*id, &mut count, &mut states, &mut done);
        }
    }
    assert_eq!(count, 0);
    assert!(states.iter().all(|state| *state == Leave::Gone));
    done
}

#[test]
fn the_last_thread_to_leave_wakes_the_main_one() {
    assert_eq!(Leave::CountDown.next(4, 2, false), Leave::WakeMain);
    assert_eq!(Leave::CountDown.next(4, 3, false), Leave::Gone);
    assert_eq!(Leave::CountDown.next(0, 3, true), Leave::Look);
    assert_eq!(Leave::CountDown.next(0, 2, true), Leave::Publish);
    assert_eq!(Leave::WakeMain.next(4, 0, false), Leave::Gone);
}

#[test]
fn the_main_thread_waits_until_one_is_left_on_the_count() {
    assert_eq!(Leave::Look.next(0, 3, true), Leave::Wait(3));
    assert_eq!(Leave::Wait(3).next(0, 0, true), Leave::Look);
    assert_eq!(Leave::Look.next(0, 1, true), Leave::Publish);
    assert_eq!(Leave::Publish.next(0, 0, true), Leave::Report);
    assert_eq!(Leave::Publish.next(0, 0, false), Leave::Release);
    assert_eq!(Leave::Report.next(0, 0, true), Leave::Release);
    assert_eq!(Leave::Release.next(0, 0, true), Leave::Gone);
    assert_eq!(Leave::Gone.next(0, 2, true), Leave::Gone);
}

#[test]
fn the_result_comes_after_every_thread_has_left() {
    for order in [[0, 1, 2], [1, 0, 2], [2, 1, 0]] {
        let done = leave_in_order(&order);
        let place = |what: Leave| done.iter().position(|step| step.1 == what).unwrap();
        let left = done.iter().filter(|step| step.1 == Leave::CountDown).count();
        assert_eq!(left, 3);
        let last = done.iter().rposition(|step| step.1 == Leave::CountDown).unwrap();
        assert!(last < place(Leave::Publish));
        assert!(place(Leave::Publish) < place(Leave::Report));
        assert!(place(Leave::Report) < place(Leave::Release));
        assert_eq!(done.iter().filter(|step| step.1 == Leave::Publish).count(), 1);
        assert_eq!(done[place(Leave::Publish)].0, 0);
        // Somebody wakes the main thread exactly if it is not itself the last.
        let wakes = done.iter().filter(|step| step.1 == Leave::WakeMain).count();
        assert_eq!(wakes, if order[2] == 0 { 0 } else { 1 });
    }
}

#[test]
fn a_short_game_is_deepened_beyond_the_last_ply() {
    let start = board(0, Color::White);
    let (a, b) = (board(1, Color::Black), board(2, Color::White));
    let mut tree = GameTree::new();
    tree.add(&start, quiet("e1", "e2", "h1"), a);
    tree.add(&a, quiet("e8", "e7", "h1"), b);
    let mut notes = Notebook::new(100_000, 1000);
    let mut pos = Position::new(start);
    let mut thread = ThreadData::new(0);
    let mut state = Deepening::new();
    for _ in 0..MAX_PLY + 20 {
        assert!(!state.iterate(&mut pos, &mut thread, &tree, &mut notes));
    }
    assert_eq!(state.completed_depth(), MAX_PLY as i32 + 20);
    // White, without a move after the second ply, wins.
    assert_eq!(state.score(), Some(Score(31_998)));
}

#[test]
fn the_last_ply_is_settled_without_its_moves() {
    let start = board(0, Color::White);
    let tree = GameTree::new();
    let mut thread = ThreadData::new(0);
    let mut notes = Notebook::new(1000, 1);
    notes.note(&start, Score(33));
    // A side without a move wins there too.
    assert_eq!(narrow(&mut thread, &start, 5, MAX_PLY, &tree, &mut notes), 31_744);
    let mut tree = GameTree::new();
    tree.add(&start, quiet("e1", "e2", "h1"), board(1, Color::Black));
    assert_eq!(narrow(&mut thread, &start, 5, MAX_PLY, &tree, &mut notes), 33);
    assert_eq!(narrow(&mut thread, &start, 5, MAX_PLY + 1, &tree, &mut notes), 33);
    // A stop is obeyed: the node itself is the last position allowed.
    let mut few = Notebook::new(1, 1);
    few.note(&start, Score(33));
    assert_eq!(narrow(&mut thread, &start, 5, MAX_PLY, &tree, &mut few), 0);
    assert!(thread.stop);
    assert_eq!(narrow(&mut thread, &start, 5, MAX_PLY + 1, &tree, &mut notes), 0);
}

#[test]
fn a_completed_depth_is_reported_before_it_is_settled() {
    assert_eq!(Deepen::Search.next(false, true), Deepen::Report);
    assert_eq!(Deepen::Report.next(false, true), Deepen::Settle);
    assert_eq!(Deepen::Search.next(false, false), Deepen::Settle);
    assert_eq!(Deepen::Settle.next(false, true), Deepen::Search);
    assert_eq!(Deepen::Settle.next(true, true), Deepen::Done);
    // A depth cut short is neither reported nor settled.
    assert_eq!(Deepen::Search.next(true, true), Deepen::Done);
    assert_eq!(Deepen::Search.next(true, false), Deepen::Done);
    assert_eq!(Deepen::Done.next(false, true), Deepen::Done);
}

#[test]
fn a_thread_is_ready_with_a_place_for_every_ply() {
    let mut thread = ThreadData::new(0);
    assert!(thread.ready());
    let place = thread.stack.pop().unwrap();
    assert!(!thread.ready());
    thread.stack.push(place);
    assert!(thread.ready());
    // A line of an earlier ply does not belong at the last.
    let start = board(0, Color::White);
    let mut tree = GameTree::new();
    tree.add(&start, quiet("e1", "e2", "h1"), board(1, Color::Black));
    let (_, pv, searched) = root(&start, 1, &tree, &mut Notebook::new(1000, 1));
    assert_eq!(pv.len(), 1);
    thread.stack[MAX_PLY] = searched.stack[0].clone();
    assert!(!thread.ready());
}

#[test]
fn large_evaluations_may_be_corrected() {
    assert_eq!(adjust_eval(Score(2_000_000), -1_999_950), Score(50));
    assert_eq!(adjust_eval(Score(i32::MAX), 0), Score(31_000));
    assert_eq!(adjust_eval(Score(i32::MIN), i32::MAX), Score(-1));
}

#[test]
fn a_quiescence_search_beyond_the_last_ply_is_the_evaluation() {
    let start = board(0, Color::White);
    let tree = GameTree::new();
    let mut notes = Notebook::new(1000, 1);
    notes.note(&start, Score(31));
    let mut pos = Position::new(start);
    let mut thread = ThreadData::new(0);
    let score = qsearch(
        &mut pos,
        &mut thread,
        &tree,
        &mut notes,
        NodeType::PV,
        Score(-5),
        Score(5),
        MAX_PLY + 40,
    );
    assert_eq!(score, Score(31));
    assert_eq!(notes.nodes(), 1);
}

#[test]
fn a_quiescence_search_writes_neither_table_nor_statistics() {
    let start = board(0, Color::White);
    let mut tree = GameTree::new();
    tree.add(&start, capture("h1"), board(1, Color::Black));
    let mut notes = Notebook::new(1000, 1);
    notes.note(&board(1, Color::Black), Score(-200));
    let mut thread = ThreadData::new(0);
    assert_eq!(narrow(&mut thread, &start, 0, 1, &tree, &mut notes), 200);
    assert_eq!(notes.probe(start.hash()), None);
    assert_eq!(notes.probe(board(1, Color::Black).hash()), None);
    assert!(notes.lessons().is_empty());
    assert!(notes.misses().is_empty());
}

#[test]
fn an_unconfirmed_null_move_leaves_no_recorded_move() {
    let mut earlier = board(0, Color::White);
    earlier.set_duck(Some(sq("h5")));
    let m = quiet("e1", "e2", "h1");
    let mut tree = GameTree::new();
    tree.add(&earlier, m, board(1, Color::Black));
    let mut thread = ThreadData::new(0);
    let mut notes = Notebook::new(1000, 1);
    notes.insert(earlier.duckless_hash(), Some(m), Score(50), 3, TTFlag::Lower);
    narrow(&mut thread, &earlier, 3, 1, &tree, &mut notes);
    let start = board(2, Color::White);
    let after = board(3, Color::Black);
    tree.add(&start, quiet("e1", "d1", "h1"), after);
    notes.note(&start, Score(100));
    notes.insert(tree.play_null(&start).hash(), None, Score(-100), 9, TTFlag::Exact);
    // The only move scores four, both to confirm and afterwards.
    notes.insert(after.hash(), None, Score(-4), 9, TTFlag::Exact);
    assert_eq!(narrow(&mut thread, &start, 4, 2, &tree, &mut notes), 4);
    assert_eq!(thread.mv(2), None);
    assert_eq!(
        notes.probe(start.hash()),
        Some(TTEntry { best_move: None, score: Score(4), depth: 4, flag: TTFlag::Upper })
    );
}

#[test]
fn a_root_may_stand_below_the_first_ply() {
    let start = board(0, Color::White);
    let a = board(1, Color::Black);
    let m = quiet("e1", "e2", "h1");
    let mut tree = GameTree::new();
    tree.add(&start, m, a);
    let mut notes = Notebook::new(1000, 1);
    notes.note(&a, Score(-12));
    let mut pos = Position::new(start);
    let mut thread = ThreadData::new(0);
    let score = search(
        &mut pos,
        &mut thread,
        &tree,
        &mut notes,
        NodeType::Root,
        Score(-INFINITE),
        Score(INFINITE),
        1,
        5,
    );
    assert_eq!(score, Score(12));
    assert_eq!(line(thread.pv(5)), vec![m]);
    assert_eq!(thread.mv(5), Some(m));
}
