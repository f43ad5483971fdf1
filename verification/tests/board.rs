use duck_search::board::board::{Board, TerminalState};
use duck_search::board::state::{CastlingDirection, CastlingRights, EnPassant};
use duck_search::board::zobrist;
use duck_search::common::bitboard::Bitboard;
use duck_search::common::geometry::{
    between, bishop_attacks, king_attacks, knight_attacks, pawn_attacks, rook_attacks,
};
use duck_search::common::moves::{Move, MoveFlag};
use duck_search::common::types::{Color, File, Piece, Rank, Square};
use duck_search::tree::GameTree;

/// The square with a name such as "e4".
fn sq(name: &str) -> Square {
    let bytes = name.as_bytes();
    Square::new(File::from_index(bytes[0] - b'a'), Rank::from_index(bytes[1] - b'1'))
}

fn set(names: &[&str]) -> Bitboard {
    let mut r = Bitboard::empty();
    for name in names {
        r = r.union(Bitboard::single(sq(name)));
    }
    r
}

/// A board with the given pieces on it.
fn setup(pieces: &[(&str, Piece, Color)]) -> Board {
    let mut board = Board::empty();
    for (name, piece, color) in pieces {
        board.put(sq(name), *piece, *color);
    }
    board
}

fn kings() -> Board {
    setup(&[("e1", Piece::King, Color::White), ("e8", Piece::King, Color::Black)])
}

/// All that can be read off a board.
fn reading(board: &Board) -> (Vec<Bitboard>, Vec<Option<Piece>>, Vec<u64>, Option<Square>) {
    let mut sets = vec![board.colors(Color::White), board.colors(Color::Black)];
    for piece in [
        Piece::Pawn,
        Piece::Knight,
        Piece::Bishop,
        Piece::Rook,
        Piece::Queen,
        Piece::King,
    ] {
        sets.push(board.pieces(piece));
    }
    let mailbox = (0..64).map(|i| board.piece_on(Square::from_index(i))).collect();
    let keys = vec![
        board.hash(),
        board.pawn_hash(),
        board.minor_hash(),
        board.major_hash(),
        board.white_hash(),
        board.black_hash(),
    ];
    (sets, mailbox, keys, board.duck())
}

#[test]
fn squares_are_numbered_from_a1_to_h8() {
    assert_eq!(sq("a1").index(), 0);
    assert_eq!(sq("h1").index(), 7);
    assert_eq!(sq("a2").index(), 8);
    assert_eq!(sq("e4").index(), 28);
    assert_eq!(sq("h8").index(), 63);
    for i in 0..Square::COUNT {
        assert_eq!(Square::from_index(i).index(), i);
    }
}

#[test]
fn ranks_are_seen_from_each_side() {
    assert_eq!(Rank::Fifth.relative_to(Color::White), Rank::Fifth);
    assert_eq!(Rank::Fifth.relative_to(Color::Black), Rank::Fourth);
    assert_eq!(Rank::Sixth.relative_to(Color::Black), Rank::Third);
    assert_eq!(Color::White.flip(), Color::Black);
    assert_eq!(Color::Black.flip(), Color::White);
}

#[test]
fn bitboards_are_sets_of_squares() {
    let a = set(&["a1", "e4"]);
    let b = set(&["e4", "h8"]);
    assert_eq!(a.union(b), set(&["a1", "e4", "h8"]));
    assert_eq!(a.intersection(b), set(&["e4"]));
    assert_eq!(a.complement().complement(), a);
    assert_eq!(a.union(a.complement()), Bitboard::full());
    assert!(Bitboard::full().is_full());
    assert!(!a.is_full());
    assert!(Bitboard::empty().is_empty());
    assert!(a.is_nonempty());
    assert_eq!(a.toggled(sq("a1")), set(&["e4"]));
    assert_eq!(a.toggled(sq("a1")).toggled(sq("a1")), a);
    assert_eq!(b.next(), sq("e4"));
    assert_eq!(b.try_next(), Some(sq("e4")));
    assert_eq!(Bitboard::empty().try_next(), None);
    assert_eq!(Bitboard::single(sq("b1")).0, 2);
}

#[test]
fn pieces_reach_across_the_board() {
    assert_eq!(between(sq("a1"), sq("d4")), set(&["b2", "c3"]));
    assert_eq!(between(sq("d4"), sq("a1")), set(&["b2", "c3"]));
    assert_eq!(between(sq("e1"), sq("e4")), set(&["e2", "e3"]));
    assert_eq!(between(sq("a1"), sq("b2")), Bitboard::empty());
    assert_eq!(between(sq("a1"), sq("b3")), Bitboard::empty());
    assert_eq!(between(sq("a1"), sq("a1")), Bitboard::empty());
    assert_eq!(knight_attacks(sq("a1")), set(&["b3", "c2"]));
    assert_eq!(king_attacks(sq("h1")), set(&["g1", "g2", "h2"]));
    assert_eq!(pawn_attacks(sq("e4"), Color::White), set(&["d5", "f5"]));
    assert_eq!(pawn_attacks(sq("e4"), Color::Black), set(&["d3", "f3"]));
    assert_eq!(pawn_attacks(sq("a4"), Color::White), set(&["b5"]));
    assert_eq!(pawn_attacks(sq("e8"), Color::White), Bitboard::empty());
    let blockers = set(&["c3", "e1"]);
    assert_eq!(bishop_attacks(blockers, sq("a1")), set(&["b2", "c3"]));
    assert_eq!(
        rook_attacks(set(&["c1", "a3"]), sq("a1")),
        set(&["b1", "c1", "a2", "a3"])
    );
}

#[test]
fn empty_board_has_nothing_on_it() {
    let board = Board::empty();
    assert!(board.occupied().is_empty());
    for i in 0..64 {
        assert_eq!(board.piece_on(Square::from_index(i)), None);
        assert_eq!(board.color_on(Square::from_index(i)), None);
    }
    assert_eq!(board.hash(), 0);
    assert_eq!(board.duckless_hash(), 0);
    assert_eq!(board.pawn_hash(), 0);
    assert_eq!(board.stm(), Color::White);
    assert_eq!(board.castling_rights(Color::White), CastlingRights::default());
    assert_eq!(board.castling_rights(Color::Black), CastlingRights::default());
    assert_eq!(board.en_passant(), None);
    assert_eq!(board.duck(), None);
    assert_eq!(board.try_king(Color::White), None);
    assert_eq!(board.fmc(), 1);
    assert_eq!(board.hmc(), 0);
}

#[test]
fn board_answers_where_pieces_stand() {
    let mut board = setup(&[
        ("e1", Piece::King, Color::White),
        ("d1", Piece::Queen, Color::White),
        ("a1", Piece::Rook, Color::White),
        ("c1", Piece::Bishop, Color::White),
        ("e8", Piece::King, Color::Black),
        ("d8", Piece::Queen, Color::Black),
        ("b8", Piece::Knight, Color::Black),
        ("e7", Piece::Pawn, Color::Black),
    ]);
    board.set_duck(Some(sq("h4")));
    assert_eq!(board.king(Color::White), sq("e1"));
    assert_eq!(board.try_king(Color::Black), Some(sq("e8")));
    assert_eq!(board.colors(Color::White), set(&["e1", "d1", "a1", "c1"]));
    assert_eq!(board.pieces(Piece::Queen), set(&["d1", "d8"]));
    assert_eq!(board.colored_pieces(Color::Black, Piece::Queen), set(&["d8"]));
    assert_eq!(board.diag_sliders(), set(&["c1", "d1", "d8"]));
    assert_eq!(board.orth_sliders(), set(&["a1", "d1", "d8"]));
    assert_eq!(board.colored_diag_sliders(Color::White), set(&["c1", "d1"]));
    assert_eq!(board.colored_orth_sliders(Color::Black), set(&["d8"]));
    assert_eq!(board.piece_on(sq("b8")), Some(Piece::Knight));
    assert_eq!(board.piece_on(sq("b7")), None);
    assert_eq!(board.color_on(sq("a1")), Some(Color::White));
    assert_eq!(board.color_on(sq("e7")), Some(Color::Black));
    assert_eq!(board.color_on(sq("h4")), None);
    assert!(board.occupied().has(sq("h4")));
    assert_eq!(
        board.occupied(),
        set(&["e1", "d1", "a1", "c1", "e8", "d8", "b8", "e7", "h4"])
    );
}

#[test]
fn pieces_count_for_their_keys() {
    let cases = [
        (Piece::Pawn, true, false, false, false),
        (Piece::Knight, false, true, false, true),
        (Piece::Bishop, false, true, false, true),
        (Piece::Rook, false, false, true, true),
        (Piece::Queen, false, false, true, true),
        (Piece::King, false, true, true, true),
    ];
    for (piece, pawn, minor, major, side) in cases {
        for color in [Color::White, Color::Black] {
            let mut board = Board::empty();
            board.toggle_square(sq("c5"), piece, color);
            let key = zobrist::piece(sq("c5"), piece, color);
            let part = |counts: bool| if counts { key } else { 0 };
            assert_ne!(key, 0);
            assert_eq!(board.hash(), key);
            assert_eq!(board.pawn_hash(), part(pawn));
            assert_eq!(board.minor_hash(), part(minor));
            assert_eq!(board.major_hash(), part(major));
            assert_eq!(board.white_hash(), part(side && color == Color::White));
            assert_eq!(board.black_hash(), part(side && color == Color::Black));
            assert_eq!(board.piece_on(sq("c5")), None);
            assert_eq!(board.colors(color), set(&["c5"]));
            assert_eq!(board.pieces(piece), set(&["c5"]));
        }
    }
}

#[test]
fn toggling_twice_leaves_the_board_as_it_was() {
    let board = kings();
    let before = reading(&board);
    let mut after = board;
    after.toggle_square(sq("d4"), Piece::Rook, Color::Black);
    assert_ne!(reading(&after), before);
    after.toggle_square(sq("d4"), Piece::Rook, Color::Black);
    assert_eq!(reading(&after), before);
}

#[test]
fn toggles_in_either_order_agree() {
    let mut a = kings();
    a.toggle_square(sq("d4"), Piece::Rook, Color::Black);
    a.toggle_square(sq("a2"), Piece::Pawn, Color::White);
    let mut b = kings();
    b.toggle_square(sq("a2"), Piece::Pawn, Color::White);
    b.toggle_square(sq("d4"), Piece::Rook, Color::Black);
    assert_eq!(reading(&a), reading(&b));
}

#[test]
fn keys_do_not_depend_on_the_way() {
    let mut a = kings();
    a.put(sq("b5"), Piece::Knight, Color::White);
    a.set_castling_rights(Color::White, CastlingDirection::Short, Some(File::H));
    a.set_duck(Some(sq("c6")));
    a.toggle_stm();
    let mut b = Board::empty();
    b.toggle_stm();
    b.set_duck(Some(sq("a3")));
    b.set_castling_rights(Color::White, CastlingDirection::Short, Some(File::A));
    b.put(sq("b5"), Piece::Knight, Color::White);
    b.put(sq("e8"), Piece::King, Color::Black);
    b.set_duck(Some(sq("c6")));
    b.put(sq("e1"), Piece::King, Color::White);
    b.set_castling_rights(Color::White, CastlingDirection::Short, Some(File::H));
    assert_eq!(reading(&a), reading(&b));
    let expected = zobrist::piece(sq("b5"), Piece::Knight, Color::White)
        ^ zobrist::piece(sq("e1"), Piece::King, Color::White)
        ^ zobrist::piece(sq("e8"), Piece::King, Color::Black)
        ^ zobrist::castling_rights(Color::White, File::H)
        ^ zobrist::duck(sq("c6"))
        ^ zobrist::stm();
    assert_eq!(a.hash(), expected);
}

#[test]
fn castling_rights_are_kept_for_each_side() {
    let mut board = kings();
    let plain = board.hash();
    board.set_castling_rights(Color::White, CastlingDirection::Short, Some(File::H));
    board.set_castling_rights(Color::Black, CastlingDirection::Long, Some(File::A));
    assert_eq!(
        board.castling_rights(Color::White),
        CastlingRights { short: Some(File::H), long: None }
    );
    assert_eq!(
        board.castling_rights(Color::Black),
        CastlingRights { short: None, long: Some(File::A) }
    );
    assert_eq!(
        board.castling_rights(Color::Black).get(CastlingDirection::Long),
        Some(File::A)
    );
    assert_eq!(
        board.hash(),
        plain
            ^ zobrist::castling_rights(Color::White, File::H)
            ^ zobrist::castling_rights(Color::Black, File::A)
    );
    board.set_castling_rights(Color::White, CastlingDirection::Short, None);
    board.set_castling_rights(Color::Black, CastlingDirection::Long, None);
    assert_eq!(board.hash(), plain);
    assert_eq!(board.castling_rights(Color::White), CastlingRights::default());
}

#[test]
fn en_passant_changes_the_key_and_back() {
    let mut board = kings();
    let plain = board.hash();
    board.set_en_passant(Some(EnPassant::new(File::C, true, false)));
    assert_eq!(board.en_passant().map(|ep| ep.file()), Some(File::C));
    assert_eq!(board.hash(), plain ^ zobrist::en_passant(File::C));
    board.set_en_passant(Some(EnPassant::new(File::F, true, false)));
    assert_eq!(board.hash(), plain ^ zobrist::en_passant(File::F));
    board.set_en_passant(None);
    assert_eq!(board.hash(), plain);
}

#[test]
fn duckless_key_ignores_the_duck() {
    let mut board = kings();
    let plain = board.hash();
    assert_eq!(board.duckless_hash(), plain);
    board.set_duck(Some(sq("d5")));
    assert_eq!(board.hash(), plain ^ zobrist::duck(sq("d5")));
    assert_eq!(board.duckless_hash(), plain);
    board.set_duck(Some(sq("a8")));
    assert_eq!(board.duckless_hash(), plain);
    board.set_duck(None);
    assert_eq!(board.hash(), plain);
}

#[test]
fn passing_the_turn_twice_restores_the_key() {
    let mut board = kings();
    let plain = board.hash();
    board.toggle_stm();
    assert_eq!(board.stm(), Color::Black);
    assert_eq!(board.hash(), plain ^ zobrist::stm());
    board.toggle_stm();
    assert_eq!(board.stm(), Color::White);
    assert_eq!(board.hash(), plain);
}

#[test]
fn copies_of_a_board_are_independent() {
    let board = kings();
    let mut copy = board;
    copy.put(sq("a4"), Piece::Queen, Color::White);
    assert_eq!(board.piece_on(sq("a4")), None);
    assert_eq!(copy.piece_on(sq("a4")), Some(Piece::Queen));
    assert_eq!(board.clone().hash(), board.hash());
}

#[test]
fn en_passant_needs_a_neighbour_and_a_free_square() {
    // White to move; Black has just pushed the pawn to d5.
    let mut board = setup(&[
        ("d5", Piece::Pawn, Color::Black),
        ("c5", Piece::Pawn, Color::White),
    ]);
    let plain = board.hash();
    board.calc_en_passant(Some(File::D));
    assert_eq!(board.en_passant(), Some(EnPassant::new(File::D, true, false)));
    assert_eq!(board.hash(), plain ^ zobrist::en_passant(File::D));
    // Working it out again changes nothing.
    board.calc_en_passant(Some(File::D));
    assert_eq!(board.en_passant(), Some(EnPassant::new(File::D, true, false)));
    assert_eq!(board.hash(), plain ^ zobrist::en_passant(File::D));
    board.put(sq("e5"), Piece::Pawn, Color::White);
    board.calc_en_passant(Some(File::D));
    assert_eq!(board.en_passant(), Some(EnPassant::new(File::D, true, true)));
    // The duck on the square behind the pawn keeps it from being taken.
    board.set_duck(Some(sq("d6")));
    board.calc_en_passant(Some(File::D));
    assert_eq!(board.en_passant(), None);
    board.set_duck(Some(sq("d7")));
    board.calc_en_passant(Some(File::D));
    assert_eq!(board.en_passant(), Some(EnPassant::new(File::D, true, true)));
    board.calc_en_passant(None);
    assert_eq!(board.en_passant(), None);
    // No pawn stands beside this file.
    board.calc_en_passant(Some(File::H));
    assert_eq!(board.en_passant(), None);
}

#[test]
fn en_passant_on_the_edge_for_black() {
    let mut board = setup(&[
        ("a4", Piece::Pawn, Color::White),
        ("b4", Piece::Pawn, Color::Black),
        ("h4", Piece::Pawn, Color::Black),
    ]);
    board.toggle_stm();
    board.calc_en_passant(Some(File::A));
    assert_eq!(board.en_passant(), Some(EnPassant::new(File::A, false, true)));
    board.calc_en_passant(Some(File::G));
    assert_eq!(board.en_passant(), Some(EnPassant::new(File::G, false, true)));
    board.calc_en_passant(Some(File::C));
    assert_eq!(board.en_passant(), Some(EnPassant::new(File::C, true, false)));
}

#[test]
fn a_rook_gives_check_until_the_duck_blocks_it() {
    let mut board = kings();
    assert!(!board.in_check());
    assert_eq!(board.king_capture_blocks(Color::White), Bitboard::full());
    board.put(sq("e5"), Piece::Rook, Color::Black);
    assert_eq!(board.king_capture_blocks(Color::White), set(&["e2", "e3", "e4"]));
    assert!(board.in_check());
    board.set_duck(Some(sq("d3")));
    assert!(board.in_check());
    board.set_duck(Some(sq("e3")));
    assert!(!board.in_check());
    // Black's king is not attacked by its own rook.
    assert_eq!(board.king_capture_blocks(Color::Black), Bitboard::full());
}

#[test]
fn two_attackers_leave_no_saving_square() {
    let mut board = kings();
    board.put(sq("e5"), Piece::Queen, Color::Black);
    board.put(sq("h4"), Piece::Bishop, Color::Black);
    assert_eq!(board.king_capture_blocks(Color::White), Bitboard::empty());
    board.set_duck(Some(sq("e2")));
    assert!(board.in_check());
}

#[test]
fn steps_and_jumps_cannot_be_blocked() {
    for (name, piece) in [("f3", Piece::Knight), ("d2", Piece::Pawn)] {
        let mut board = kings();
        board.put(sq(name), piece, Color::Black);
        board.set_duck(Some(sq("e2")));
        assert_eq!(board.king_capture_blocks(Color::White), Bitboard::empty());
        assert!(board.in_check());
    }
    let board = setup(&[("e1", Piece::King, Color::White), ("e2", Piece::King, Color::Black)]);
    assert_eq!(board.king_capture_blocks(Color::White), Bitboard::empty());
    assert_eq!(board.king_capture_blocks(Color::Black), Bitboard::empty());
}

#[test]
fn a_pawn_attacks_forward_only() {
    let mut board = setup(&[("e4", Piece::King, Color::White), ("a8", Piece::King, Color::Black)]);
    board.put(sq("d3"), Piece::Pawn, Color::Black);
    assert!(!board.in_check());
    board.put(sq("d5"), Piece::Pawn, Color::Black);
    assert!(board.in_check());
}

#[test]
fn pieces_block_sliders() {
    let mut board = kings();
    board.put(sq("e6"), Piece::Rook, Color::Black);
    board.put(sq("e3"), Piece::Knight, Color::White);
    assert!(!board.in_check());
    assert_eq!(board.king_capture_blocks(Color::White), Bitboard::full());
}

#[test]
fn without_an_opposing_king_nothing_is_check() {
    let mut board = setup(&[("e1", Piece::King, Color::White)]);
    board.put(sq("e8"), Piece::Rook, Color::Black);
    assert_eq!(board.king_capture_blocks(Color::White), Bitboard::full());
    assert!(!board.in_check());
}

#[test]
fn slider_blocking_set_joins_the_ways_of_all_attackers() {
    let mut board = kings();
    assert_eq!(board.slider_blocking_set(Color::White, sq("d4")), Bitboard::empty());
    board.put(sq("d7"), Piece::Rook, Color::Black);
    board.put(sq("g7"), Piece::Bishop, Color::Black);
    board.put(sq("a4"), Piece::Queen, Color::White);
    assert_eq!(
        board.slider_blocking_set(Color::White, sq("d4")),
        set(&["d5", "d6", "e5", "f6"])
    );
    assert_eq!(
        board.slider_blocking_set(Color::Black, sq("d4")),
        set(&["b4", "c4"])
    );
}

#[test]
fn terminal_states() {
    let mut tree = GameTree::new();
    let board = kings();
    // No move is known: the side to move is stalemated.
    assert_eq!(board.terminal_state(&tree), Some(TerminalState::Stalemate(Color::White)));
    let mut after = board;
    after.toggle_stm();
    let mv = Move::new(sq("e1"), sq("e2"), sq("a5"), MoveFlag::Normal);
    tree.add(&board, mv, after);
    assert_eq!(board.terminal_state(&tree), None);
    assert_eq!(
        after.terminal_state(&tree),
        Some(TerminalState::Stalemate(Color::Black))
    );
    let mut old = board;
    old.set_clocks(80, 99);
    assert_eq!(old.terminal_state(&tree), None);
    old.set_clocks(80, 100);
    assert_eq!(old.fmc(), 80);
    assert_eq!(old.hmc(), 100);
    assert_eq!(old.terminal_state(&tree), Some(TerminalState::Draw));
    // A stalemate comes before the count of moves.
    let mut stuck = after;
    stuck.set_clocks(80, 100);
    assert_eq!(
        stuck.terminal_state(&tree),
        Some(TerminalState::Stalemate(Color::Black))
    );
    // The king is gone.
    let lost = setup(&[("e8", Piece::King, Color::Black)]);
    assert_eq!(lost.terminal_state(&tree), Some(TerminalState::Victory(Color::Black)));
    let mut won = setup(&[("e1", Piece::King, Color::White)]);
    won.toggle_stm();
    won.set_clocks(1, 100);
    assert_eq!(won.terminal_state(&tree), Some(TerminalState::Victory(Color::White)));
}
