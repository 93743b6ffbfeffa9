use rand::{Rng, SeedableRng};
use chessnetwork::chess_move::Move;
use chessnetwork::chessboard::Chessboard;
use chessnetwork::constants::{BISHOP, BLACK, KING, KNIGHT, PAWN, QUEEN, WHITE};
use chessnetwork::engine::{evaluate, evaluate_heuristics, material, Engine};
use chessnetwork::heuristics::{HeuristicParams, Heuristics};
use chessnetwork::movegenerator::generate_moves;
use chessnetwork::zobrist::ZobristTable;

fn sq(i: u64) -> u64 {
    1u64 << i
}

#[test]
fn default_weights_are_ten() {
    let p = HeuristicParams::default();
    assert_eq!(p.two_middle_pawns_weight, 10);
    assert_eq!(p.castling_weight, 10);
    assert_eq!(p.development_weight, 10);
    assert_eq!(p.mobility_weight, 10);
    assert_eq!(p.knight_outpost_weight, 10);
}

#[test]
fn heuristics_at_start() {
    let board = Chessboard::new();
    let h = Heuristics::new(&board, WHITE);
    assert_eq!(h.two_middle_pawns(), 0);
    // Both castling rights are still held: one point.
    assert_eq!(h.castling(), 1);
    assert_eq!(h.development(), 0);
    // Twenty legal moves.
    assert_eq!(h.mobility(), 20);
    assert_eq!(h.knight_outpost(), 0);
    let hb = Heuristics::new(&board, BLACK);
    assert_eq!(hb.castling(), 1);
    assert_eq!(hb.mobility(), 20);
    // Black's queen starts beside the square the development rule expects it
    // on, so it already counts as developed.
    assert_eq!(hb.development(), 1);
    assert_eq!(hb.knight_outpost(), 0);
}

#[test]
fn heuristics_after_development() {
    let mut board = Chessboard::new();
    board.move_piece(PAWN, WHITE, &Move::new(sq(12), sq(28), PAWN, WHITE));
    board.move_piece(KNIGHT, WHITE, &Move::new(sq(1), sq(18), KNIGHT, WHITE));
    let h = Heuristics::new(&board, WHITE);
    assert_eq!(h.two_middle_pawns(), 1);
    assert_eq!(h.development(), 1);
    // c3 is one of the sixteen central squares and the b2 pawn defends it.
    assert_eq!(h.knight_outpost(), 2);
    // A second knight on a defended central square scores two more.
    board.move_piece(KNIGHT, WHITE, &Move::new(sq(6), sq(20), KNIGHT, WHITE));
    let h = Heuristics::new(&board, WHITE);
    assert_eq!(h.knight_outpost(), 4);
    assert_eq!(h.development(), 2);
}

#[test]
fn castling_bonus_doubles_once_castled() {
    let board = Chessboard::new();
    let start = Heuristics::new(&board, WHITE).castling();
    assert!(start > 0);
    let mut castled = Chessboard::new();
    castled.move_piece(KNIGHT, WHITE, &Move::new(sq(1), sq(18), KNIGHT, WHITE));
    castled.move_piece(BISHOP, WHITE, &Move::new(sq(2), sq(21), BISHOP, WHITE));
    castled.move_piece(KING, WHITE, &Move::castling(sq(3), sq(1), KING, WHITE, sq(0), sq(2)));
    castled.update_castling_rights(sq(3), sq(1));
    assert_eq!(Heuristics::new(&castled, WHITE).castling(), 2 * start);
    // No right left and not castled: nothing.
    let mut moved = Chessboard::new();
    moved.update_castling_rights(sq(3), sq(11));
    assert_eq!(Heuristics::new(&moved, WHITE).castling(), 0);
}

#[test]
fn knight_outposts_on_the_sixteen_central_squares() {
    let mut b = Chessboard::default();
    b.set_piece_mask(KNIGHT, WHITE, sq(18));
    b.set_white_pieces(sq(18));
    assert_eq!(Heuristics::new(&b, WHITE).knight_outpost(), 1);
    let mut b = Chessboard::default();
    b.set_piece_mask(KNIGHT, WHITE, sq(27));
    b.set_piece_mask(PAWN, WHITE, sq(20));
    b.set_white_pieces(sq(27) | sq(20));
    assert_eq!(Heuristics::new(&b, WHITE).knight_outpost(), 2);
}

#[test]
fn material_is_balanced_at_start_and_counts_captures() {
    let mut board = Chessboard::new();
    assert_eq!(material(&board, WHITE), 0);
    assert_eq!(material(&board, BLACK), 0);
    // Remove black's queen by moving a white pawn onto its square.
    board.move_piece(PAWN, WHITE, &Move::new(sq(12), sq(60), PAWN, WHITE));
    assert_eq!(material(&board, WHITE), 90);
    assert_eq!(material(&board, BLACK), -90);
}

#[test]
fn evaluation_at_start() {
    let board = Chessboard::new();
    let params = HeuristicParams::default();
    // Castling still possible (10) and twenty legal moves (200).
    assert_eq!(evaluate_heuristics(&board, WHITE, &params), 210);
    assert_eq!(evaluate(&board, WHITE, &params), 210);
    // Black's queen also counts as developed (10).
    assert_eq!(evaluate(&board, BLACK, &params), 220);
}

#[test]
fn engine_picks_a_legal_move() {
    let board = Chessboard::new();
    let mut engine = Engine::new(1, WHITE, HeuristicParams::default(), 1);
    let best = engine.get_best_move(board).expect("white has moves");
    let mut scratch = board;
    let legal = generate_moves(&mut scratch, WHITE);
    assert!(legal.contains(&best));
}

#[test]
fn engine_without_moves_returns_none() {
    let mut board = Chessboard::new();
    // Black keeps only its king, boxed in by white queens and unable to move.
    let mut pieces = [0u64; 12];
    pieces[5] = sq(3);
    pieces[4] = sq(45) | sq(46);
    pieces[11] = sq(63);
    board.set_pieces(pieces);
    board.set_white_pieces(sq(3) | sq(45) | sq(46));
    board.set_black_pieces(sq(63));
    let mut scratch = board;
    assert_eq!(generate_moves(&mut scratch, BLACK).len(), 0);
    let mut engine = Engine::new(1, BLACK, HeuristicParams::default(), 1);
    assert_eq!(engine.get_best_move(board), None);
}

#[test]
fn zobrist_toggles_cancel() {
    let board = Chessboard::new();
    let table = ZobristTable::new(board);
    let start = table.hash(&board, WHITE);
    let mut h = start;
    table.toggle_piece(&mut h, QUEEN, BLACK, 60);
    assert_ne!(h, start);
    table.toggle_piece(&mut h, QUEEN, BLACK, 60);
    assert_eq!(h, start);
    table.toggle_side(&mut h);
    table.toggle_side(&mut h);
    assert_eq!(h, start);
    table.toggle_castling(&mut h, 2);
    table.toggle_castling(&mut h, 2);
    table.toggle_en_passant(&mut h, 7);
    table.toggle_en_passant(&mut h, 7);
    assert_eq!(h, start);
    assert_ne!(table.hash(&board, BLACK), start);
}

#[test]
fn zobrist_tables_are_reproducible() {
    let board = Chessboard::new();
    let a = ZobristTable::new(board);
    let b = ZobristTable::new(board);
    assert_eq!(a.hash(&board, WHITE), b.hash(&board, WHITE));
}

#[test]
fn zobrist_update_matches_a_fresh_hash() {
    let mut board = Chessboard::new();
    let table = ZobristTable::new(board);
    let mut h = table.hash(&board, WHITE);
    let mv = Move::new(sq(12), sq(20), PAWN, WHITE);
    ZobristTable::update(mv, &mut h, &table);
    board.move_piece(PAWN, WHITE, &mv);
    assert_eq!(h, table.hash(&board, WHITE));
}

#[test]
fn zobrist_update_of_special_moves_matches_a_fresh_hash() {
    // Double push: the pawn's keys and the en passant key change.
    let mut board = Chessboard::new();
    let table = ZobristTable::new(board);
    let mut h = table.hash(&board, WHITE);
    let mv = Move::double_pawn_push(sq(11), sq(27), PAWN, WHITE);
    ZobristTable::update(mv, &mut h, &table);
    board.move_piece(PAWN, WHITE, &mv);
    assert_eq!(board.get_en_passant(), 4);
    assert_eq!(h, table.hash(&board, WHITE));

    // Castling: king and rook both move.
    let mut board = Chessboard::new();
    board.set_piece_mask(KNIGHT, WHITE, 0);
    board.set_piece_mask(chessnetwork::constants::BISHOP, WHITE, sq(5));
    let mut h = table.hash(&board, WHITE);
    let mv = Move::castling(sq(3), sq(1), KING, WHITE, sq(0), sq(2));
    ZobristTable::update(mv, &mut h, &table);
    board.move_piece(KING, WHITE, &mv);
    assert_eq!(h, table.hash(&board, WHITE));

    // En passant: the captured pawn leaves its square too.
    let mut board = Chessboard::new();
    board.set_piece_mask(PAWN, WHITE, sq(36));
    board.set_piece_mask(PAWN, BLACK, sq(35));
    let mut h = table.hash(&board, WHITE);
    let mv = Move::en_passant(sq(36), sq(43), PAWN, WHITE, sq(35));
    ZobristTable::update(mv, &mut h, &table);
    board.move_piece(PAWN, WHITE, &mv);
    assert_eq!(board.get_piece_mask(PAWN, BLACK), 0);
    assert_eq!(h, table.hash(&board, WHITE));

    // Promotion: the pawn leaves, a queen arrives.
    let mut board = Chessboard::new();
    board.set_piece_mask(PAWN, WHITE, sq(48));
    board.set_piece_mask(PAWN, BLACK, 0);
    board.set_piece_mask(chessnetwork::constants::ROOK, BLACK, sq(63));
    let mut h = table.hash(&board, WHITE);
    let mv = Move::promotion(sq(48), sq(56), PAWN, WHITE, QUEEN);
    ZobristTable::update(mv, &mut h, &table);
    board.move_piece(PAWN, WHITE, &mv);
    assert_eq!(h, table.hash(&board, WHITE));
}

#[test]
fn zobrist_keys_follow_the_seeded_stream() {
    let mut rng = rand::rngs::StdRng::seed_from_u64(69);
    let first: u64 = rng.random();
    let second: u64 = rng.random();
    let board = Chessboard::new();
    let table = ZobristTable::new(board);
    let mut h = 0u64;
    table.toggle_piece(&mut h, PAWN, WHITE, 0);
    assert_eq!(h, first);
    let mut h = 0u64;
    table.toggle_piece(&mut h, PAWN, WHITE, 1);
    assert_eq!(h, second);
}

use chessnetwork::engine::{BoundType, Entry, TranspositionTable};

#[test]
fn table_reads_back_what_it_stored() {
    let mut table = TranspositionTable::new(1);
    assert!(table.get(42).is_none());
    let entry = Entry { hash: 42, depth: 3, score: 17, best_move: None, bound_type: BoundType::Exact };
    table.insert(entry);
    let found = table.get(42).expect("stored entry");
    assert_eq!((found.hash, found.depth, found.score), (42, 3, 17));
    // A shallower entry for the same slot does not replace it.
    table.insert(Entry { hash: 42, depth: 2, score: -5, best_move: None, bound_type: BoundType::LowerBound });
    assert_eq!(table.get(42).unwrap().score, 17);
    // A deeper one does.
    table.insert(Entry { hash: 42, depth: 4, score: 9, best_move: None, bound_type: BoundType::UpperBound });
    assert_eq!(table.get(42).unwrap().score, 9);
    assert!(table.get(43).is_none());
}
