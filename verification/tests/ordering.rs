use duck_search::board::board::Board;
use duck_search::common::moves::{Move, MoveFlag};
use duck_search::common::types::{Color, File, Piece, Rank, Square};
use duck_search::position::Position;
use duck_search::rules::{MoveFilter, Rules};
use duck_search::search::backend::{Backend, LARGE};
use duck_search::search::move_picker::MovePicker;
use duck_search::search::move_stack::{MoveStack, ScoredMove};
use duck_search::search::ordering::{mvv, rank_from, same_move, score_noisies, score_quiets};
use duck_search::search::thread::ThreadData;
use duck_search::search::MAX_PLY;
use duck_search::tree::{GameTree, Notebook, Statistic};

fn sq(name: &str) -> Square {
    let bytes = name.as_bytes();
    Square::new(File::from_index(bytes[0] - b'a'), Rank::from_index(bytes[1] - b'1'))
}

fn mv(src: &str, dest: &str, duck: &str, flag: MoveFlag) -> Move {
    Move::new(sq(src), sq(dest), sq(duck), flag)
}

/// White to move, with a rook on b7 and a pawn on c7 to take.
fn start() -> Board {
    let mut board = Board::empty();
    board.put(sq("e1"), Piece::King, Color::White);
    board.put(sq("e8"), Piece::King, Color::Black);
    board.put(sq("b7"), Piece::Rook, Color::Black);
    board.put(sq("c7"), Piece::Pawn, Color::Black);
    board
}

fn other_side(board: &Board) -> Board {
    let mut after = *board;
    after.toggle_stm();
    after
}

fn take_rook() -> Move {
    mv("b1", "b7", "h1", MoveFlag::Capture)
}

fn take_pawn() -> Move {
    mv("c1", "c7", "h1", MoveFlag::Capture)
}

fn step_up() -> Move {
    mv("e1", "e2", "h1", MoveFlag::Normal)
}

fn step_aside() -> Move {
    mv("e1", "d1", "h1", MoveFlag::Normal)
}

/// Two captures and two quiet moves, the better ones last.
fn four_moves() -> GameTree {
    let board = start();
    let mut tree = GameTree::new();
    for m in [step_up(), take_pawn(), step_aside(), take_rook()] {
        tree.add(&board, m, other_side(&board));
    }
    tree
}

/// All that a picker hands out.
fn drain(picker: &mut MovePicker, tree: &GameTree, notes: &Notebook) -> Vec<Move> {
    let pos = Position::new(start());
    let mut thread = ThreadData::new(0);
    thread.move_stack.push_ply();
    let mut all = Vec::new();
    while let Some(m) = picker.next(&pos, &mut thread, tree, notes) {
        all.push(m);
    }
    assert_eq!(picker.next(&pos, &mut thread, tree, notes), None);
    all
}

#[test]
fn flags_say_what_a_move_does() {
    assert!(MoveFlag::Capture.is_capture());
    assert!(MoveFlag::QueenCapturePromotion.is_capture());
    assert!(!MoveFlag::EnPassant.is_capture());
    assert!(MoveFlag::EnPassant.is_en_passant());
    assert!(MoveFlag::EnPassant.is_noisy());
    assert!(MoveFlag::RookPromotion.is_noisy());
    assert!(MoveFlag::DoublePush.is_quiet());
    assert!(MoveFlag::ShortCastling.is_quiet());
    assert!(MoveFlag::LongCastling.is_quiet());
    assert!(!MoveFlag::Capture.is_quiet());
    assert_eq!(MoveFlag::KnightPromotion.promotion(), Some(Piece::Knight));
    assert_eq!(MoveFlag::BishopCapturePromotion.promotion(), Some(Piece::Bishop));
    assert_eq!(MoveFlag::Normal.promotion(), None);
}

#[test]
fn a_move_wins_its_victim_and_its_promotion() {
    let board = start();
    assert_eq!(mvv::<Notebook>(&board, take_rook()), 500);
    assert_eq!(mvv::<Notebook>(&board, take_pawn()), 100);
    assert_eq!(mvv::<Notebook>(&board, mv("a5", "b6", "h1", MoveFlag::EnPassant)), 100);
    assert_eq!(mvv::<Notebook>(&board, step_up()), 0);
    assert_eq!(mvv::<Notebook>(&board, mv("a7", "a8", "h1", MoveFlag::QueenPromotion)), 800);
    assert_eq!(mvv::<Notebook>(&board, mv("a7", "a8", "h1", MoveFlag::KnightPromotion)), 200);
    assert_eq!(
        mvv::<Notebook>(&board, mv("a6", "b7", "h1", MoveFlag::RookCapturePromotion)),
        900
    );
}

#[test]
fn noisy_moves_are_scored_by_gain_statistics_and_duck() {
    let pos = Position::new(start());
    let mut notes = Notebook::new(1000, 1);
    notes.rate(Statistic::Noisy, take_pawn(), -15);
    notes.rate(Statistic::Duck, take_pawn(), 17);
    let mut moves = vec![ScoredMove(take_rook(), 0), ScoredMove(take_pawn(), 0)];
    score_noisies(None, &pos, &notes, &mut moves, 0);
    // An eighth is rounded towards zero: -15 counts -1, and 17 counts 2.
    assert_eq!(
        moves,
        vec![ScoredMove(take_rook(), 4000), ScoredMove(take_pawn(), 801)]
    );
}

#[test]
fn a_duck_that_cuts_off_an_attacker_adds_to_the_score() {
    let mut board = start();
    board.put(sq("c1"), Piece::Bishop, Color::Black);
    let pos = Position::new(board);
    let notes = Notebook::new(1000, 1);
    // The bishop on c1 looks at g5 through d2, e3 and f4.
    let cutting = mv("a5", "g5", "e3", MoveFlag::EnPassant);
    let missing = mv("a5", "g5", "e4", MoveFlag::EnPassant);
    let mut moves = vec![ScoredMove(missing, 0), ScoredMove(cutting, 0)];
    score_noisies(None, &pos, &notes, &mut moves, 0);
    assert_eq!(moves, vec![ScoredMove(cutting, 6800), ScoredMove(missing, 800)]);
}

#[test]
fn quiet_moves_are_scored_by_three_statistics() {
    let pos = Position::new(start());
    let mut notes = Notebook::new(1000, 1);
    notes.rate(Statistic::Quiet, step_aside(), 100);
    notes.rate(Statistic::Duck, step_aside(), 20);
    notes.rate(Statistic::Continuation, step_aside(), -3);
    notes.rate(Statistic::Noisy, step_aside(), 5000);
    notes.rate(Statistic::Quiet, step_up(), 118);
    let mut moves = vec![ScoredMove(step_aside(), 0), ScoredMove(step_up(), 0)];
    score_quiets(None, &pos, &notes, &mut moves, 0);
    assert_eq!(
        moves,
        vec![ScoredMove(step_up(), 118), ScoredMove(step_aside(), 117)]
    );
}

#[test]
fn the_move_from_the_table_is_not_scored() {
    let pos = Position::new(start());
    let mut notes = Notebook::new(1000, 1);
    notes.rate(Statistic::Quiet, step_up(), 118);
    let mut moves = vec![ScoredMove(take_rook(), 0), ScoredMove(take_pawn(), 0)];
    score_noisies(Some(take_rook()), &pos, &notes, &mut moves, 0);
    assert_eq!(
        moves,
        vec![ScoredMove(take_pawn(), 800), ScoredMove(take_rook(), 0)]
    );
    let mut quiets = vec![ScoredMove(step_up(), 0)];
    score_quiets(Some(step_up()), &pos, &notes, &mut quiets, 0);
    assert_eq!(quiets, vec![ScoredMove(step_up(), 0)]);
}

#[test]
fn scoring_leaves_the_moves_before_the_start_alone() {
    let pos = Position::new(start());
    let notes = Notebook::new(1000, 1);
    let mut moves = vec![
        ScoredMove(step_up(), -7),
        ScoredMove(take_pawn(), 0),
        ScoredMove(take_rook(), 0),
    ];
    score_noisies(None, &pos, &notes, &mut moves, 1);
    assert_eq!(
        moves,
        vec![
            ScoredMove(step_up(), -7),
            ScoredMove(take_rook(), 4000),
            ScoredMove(take_pawn(), 800)
        ]
    );
}

#[test]
fn ranking_puts_the_best_first_and_keeps_ties_in_order() {
    let a = ScoredMove(step_up(), 3);
    let b = ScoredMove(step_aside(), 9);
    let c = ScoredMove(take_pawn(), 3);
    let d = ScoredMove(take_rook(), -4);
    let mut moves = vec![d, a, b, c];
    rank_from(&mut moves, 0);
    assert_eq!(moves, vec![b, a, c, d]);
    let mut tail = vec![d, a, b, c];
    rank_from(&mut tail, 1);
    assert_eq!(tail, vec![d, b, a, c]);
    rank_from(&mut tail, 4);
    assert_eq!(tail, vec![d, b, a, c]);
    let mut nothing: Vec<ScoredMove> = Vec::new();
    rank_from(&mut nothing, 0);
    assert_eq!(nothing, Vec::new());
}

#[test]
fn same_move_compares_with_a_known_move() {
    assert!(same_move(Some(step_up()), step_up()));
    assert!(!same_move(Some(step_up()), step_aside()));
    assert!(!same_move(None, step_up()));
}

#[test]
fn ratings_are_limited() {
    let board = start();
    let mut notes = Notebook::new(1000, 1);
    notes.rate(Statistic::Quiet, step_up(), i32::MAX);
    notes.rate(Statistic::Noisy, take_pawn(), i32::MIN);
    assert_eq!(notes.quiet(&board, step_up()), LARGE);
    assert_eq!(notes.noisy(&board, take_pawn()), -LARGE);
    assert_eq!(notes.duck(&board, step_up()), 0);
    notes.rate(Statistic::Quiet, step_up(), 5);
    assert_eq!(notes.quiet(&board, step_up()), 5);
}

#[test]
fn move_stack_keeps_a_list_for_each_ply() {
    let tree = four_moves();
    let board = start();
    let mut stack = MoveStack::default();
    stack.push_ply();
    assert!(stack.get().is_empty());
    assert_eq!(stack.add_moves(&board, &tree, MoveFilter::Noisy), 0);
    assert_eq!(
        stack.get(),
        &[ScoredMove(take_pawn(), 0), ScoredMove(take_rook(), 0)][..]
    );
    assert_eq!(stack.add_moves(&board, &tree, MoveFilter::Quiet), 2);
    assert_eq!(stack.get().len(), 4);
    assert_eq!(stack.get()[2], ScoredMove(step_up(), 0));
    stack.push_ply();
    assert!(stack.get().is_empty());
    assert_eq!(stack.add_moves(&board, &tree, MoveFilter::Quiet), 0);
    assert_eq!(stack.get().len(), 2);
    stack.get_mut()[1].1 = 77;
    assert_eq!(stack.get()[1], ScoredMove(step_aside(), 77));
    stack.pop_ply();
    assert_eq!(stack.get().len(), 4);
    assert_eq!(stack.get()[3], ScoredMove(step_aside(), 0));
    stack.pop_ply();
    stack.push_ply();
    assert!(stack.get().is_empty());
    stack.add_moves(&board, &tree, MoveFilter::Noisy);
    stack.reset();
    stack.push_ply();
    assert!(stack.get().is_empty());
}

#[test]
fn move_stack_holds_every_ply() {
    let mut stack = MoveStack::default();
    for _ in 0..MAX_PLY {
        stack.push_ply();
    }
    for _ in 0..MAX_PLY {
        stack.pop_ply();
    }
    stack.push_ply();
    assert!(stack.get().is_empty());
}

#[test]
fn rules_list_and_recognise_moves() {
    let tree = four_moves();
    let board = start();
    assert_eq!(tree.gen_moves(&board, MoveFilter::Noisy), vec![take_pawn(), take_rook()]);
    assert_eq!(tree.gen_moves(&board, MoveFilter::Quiet), vec![step_up(), step_aside()]);
    assert!(tree.any_moves(&board));
    assert!(!tree.any_moves(&other_side(&board)));
    assert!(tree.is_legal(&board, step_up()));
    assert!(!tree.is_legal(&board, mv("e1", "e2", "g1", MoveFlag::Normal)));
    assert_eq!(tree.play(&board, step_up()).hash(), other_side(&board).hash());
}

#[test]
fn a_capture_needs_a_victim_in_the_tree() {
    let board = start();
    let mut tree = GameTree::new();
    tree.add(&board, mv("b1", "b6", "h1", MoveFlag::Capture), other_side(&board));
    assert!(!tree.any_moves(&board));
    // A move that does not pass the turn is no move.
    tree.add(&board, step_up(), board);
    assert!(!tree.any_moves(&board));
    // Neither is one by which the king goes.
    let mut gone = other_side(&board);
    gone.toggle_square(sq("e1"), Piece::King, Color::White);
    tree.add(&board, step_up(), gone);
    assert!(!tree.any_moves(&board));
}

#[test]
fn picker_hands_out_noisy_moves_before_quiet_ones() {
    let tree = four_moves();
    let mut notes = Notebook::new(1000, 1);
    notes.rate(Statistic::Quiet, step_aside(), 10);
    let mut picker = MovePicker::new(None);
    assert_eq!(
        drain(&mut picker, &tree, &notes),
        vec![take_rook(), take_pawn(), step_aside(), step_up()]
    );
}

#[test]
fn picker_starts_with_the_move_from_the_table_and_hands_it_out_once() {
    let tree = four_moves();
    let notes = Notebook::new(1000, 1);
    let mut quiet_first = MovePicker::new(Some(step_aside()));
    assert_eq!(
        drain(&mut quiet_first, &tree, &notes),
        vec![step_aside(), take_rook(), take_pawn(), step_up()]
    );
    let mut noisy_first = MovePicker::new(Some(take_pawn()));
    assert_eq!(
        drain(&mut noisy_first, &tree, &notes),
        vec![take_pawn(), take_rook(), step_up(), step_aside()]
    );
}

#[test]
fn picker_leaves_out_an_illegal_move_from_the_table() {
    let tree = four_moves();
    let notes = Notebook::new(1000, 1);
    let mut picker = MovePicker::new(Some(mv("e1", "f1", "h1", MoveFlag::Normal)));
    assert_eq!(
        drain(&mut picker, &tree, &notes),
        vec![take_rook(), take_pawn(), step_up(), step_aside()]
    );
}

#[test]
fn picker_skips_quiet_moves() {
    let tree = four_moves();
    let notes = Notebook::new(1000, 1);
    let mut picker = MovePicker::new(None);
    picker.skip_quiets();
    assert_eq!(drain(&mut picker, &tree, &notes), vec![take_rook(), take_pawn()]);
    // The move from the table comes even if it is quiet.
    let mut hinted = MovePicker::new(Some(step_up()));
    hinted.skip_quiets();
    assert_eq!(
        drain(&mut hinted, &tree, &notes),
        vec![step_up(), take_rook(), take_pawn()]
    );
}

#[test]
fn picker_can_be_told_to_skip_quiet_moves_midway() {
    let tree = four_moves();
    let notes = Notebook::new(1000, 1);
    let pos = Position::new(start());
    let mut thread = ThreadData::new(0);
    thread.move_stack.push_ply();
    let mut picker = MovePicker::new(None);
    assert_eq!(picker.next(&pos, &mut thread, &tree, &notes), Some(take_rook()));
    assert_eq!(picker.next(&pos, &mut thread, &tree, &notes), Some(take_pawn()));
    assert_eq!(picker.next(&pos, &mut thread, &tree, &notes), Some(step_up()));
    picker.skip_quiets();
    assert_eq!(picker.next(&pos, &mut thread, &tree, &notes), None);
}

#[test]
fn picker_without_moves_hands_out_nothing() {
    let tree = GameTree::new();
    let notes = Notebook::new(1000, 1);
    assert_eq!(drain(&mut MovePicker::new(None), &tree, &notes), Vec::new());
    assert_eq!(drain(&mut MovePicker::new(Some(step_up())), &tree, &notes), Vec::new());
}

#[test]
fn a_finished_picker_asks_for_nothing() {
    let tree = four_moves();
    let notes = Notebook::new(1000, 1);
    let mut picker = MovePicker::new(None);
    drain(&mut picker, &tree, &notes);
    // Another position, and a thread without a list.
    let pos = Position::new(other_side(&start()));
    let mut thread = ThreadData::new(1);
    assert_eq!(picker.next(&pos, &mut thread, &tree, &notes), None);
    thread.move_stack.push_ply();
    assert_eq!(picker.next(&pos, &mut thread, &tree, &notes), None);
    assert!(thread.move_stack.get().is_empty());
}

#[test]
fn a_picker_past_the_end_of_its_list_goes_on_from_there() {
    let tree = four_moves();
    let notes = Notebook::new(1000, 1);
    let pos = Position::new(start());
    let mut thread = ThreadData::new(0);
    thread.move_stack.push_ply();
    let mut picker = MovePicker::new(None);
    assert_eq!(picker.next(&pos, &mut thread, &tree, &notes), Some(take_rook()));
    assert_eq!(picker.next(&pos, &mut thread, &tree, &notes), Some(take_pawn()));
    // With a new list the picker is two moves past the start: the quiet moves that
    // are added stand before it.
    thread.move_stack.pop_ply();
    thread.move_stack.push_ply();
    assert_eq!(picker.next(&pos, &mut thread, &tree, &notes), None);
    assert_eq!(thread.move_stack.get().len(), 2);
}

#[test]
fn the_move_from_the_table_needs_no_list() {
    let tree = four_moves();
    let notes = Notebook::new(1000, 1);
    let pos = Position::new(start());
    let mut thread = ThreadData::new(0);
    let mut picker = MovePicker::new(Some(step_up()));
    assert_eq!(picker.next(&pos, &mut thread, &tree, &notes), Some(step_up()));
}

#[test]
fn the_move_from_the_table_needs_no_victim() {
    let pos = Position::new(start());
    let notes = Notebook::new(1000, 1);
    let odd = mv("a1", "a2", "h1", MoveFlag::Capture);
    let mut moves = vec![ScoredMove(odd, 0), ScoredMove(take_rook(), 0)];
    score_noisies(Some(odd), &pos, &notes, &mut moves, 0);
    assert_eq!(moves, vec![ScoredMove(take_rook(), 4000), ScoredMove(odd, 0)]);
}
