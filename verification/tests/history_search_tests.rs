use chessnetwork::board_history::board::{Chessboard, BLACK, WHITE};
use chessnetwork::board_history::evaluation::evaluate;
use chessnetwork::board_history::mask_move::Move;
use chessnetwork::board_history::search::{
    alpha_beta, generator_stops, search_terminates, TranspositionTable, MAX_SCORE, MIN_SCORE,
};
use chessnetwork::constants::{QUEEN, ROOK};

fn rook_and_queen() -> Chessboard {
    let mut b = Chessboard::default();
    b.set_piece_mask(ROOK, WHITE, 1u64 << 0);
    b.set_piece_mask(QUEEN, BLACK, 1u64 << 56);
    b.set_white_pieces(1u64 << 0);
    b.set_black_pieces(1u64 << 56);
    b
}

#[test]
fn search_of_no_plies_is_the_evaluation() {
    let mut b = rook_and_queen();
    let mut table = TranspositionTable::new(1);
    let mut killers = Vec::new();
    let r = alpha_beta(0, MIN_SCORE, MAX_SCORE, WHITE, true, &mut b, &mut table, &mut killers);
    assert_eq!(r.score, evaluate(&b, WHITE));
    assert!(r.best_move.is_none());
    let r = alpha_beta(0, MIN_SCORE, MAX_SCORE, WHITE, false, &mut b, &mut table, &mut killers);
    assert_eq!(r.score, evaluate(&b, BLACK));
}

#[test]
fn one_ply_search_takes_the_queen_and_restores_the_board() {
    let mut b = rook_and_queen();
    let key = b.get_hash();
    let mut table = TranspositionTable::new(1);
    let mut killers = Vec::new();
    let r = alpha_beta(1, MIN_SCORE, MAX_SCORE, WHITE, true, &mut b, &mut table, &mut killers);
    assert_eq!(r.best_move, Some(Move::new(1u64 << 0, 1u64 << 56)));
    assert_eq!(b.get_hash(), key);
    assert_eq!(b.get_piece_mask(ROOK, WHITE), 1u64 << 0);
    let mut after = rook_and_queen();
    after.make_move(Move::new(1u64 << 0, 1u64 << 56));
    assert_eq!(r.score, evaluate(&after, WHITE));
    // The stored entry answers the same search again.
    let again = alpha_beta(1, MIN_SCORE, MAX_SCORE, WHITE, true, &mut b, &mut table, &mut killers);
    assert_eq!(again.score, r.score);
    assert_eq!(table.get(key).map(|e| e.score), Some(r.score));
}

#[test]
fn side_without_moves_scores_the_extremes() {
    let mut b = Chessboard::default();
    b.set_piece_mask(QUEEN, BLACK, 1u64 << 56);
    b.set_black_pieces(1u64 << 56);
    let mut table = TranspositionTable::new(1);
    let mut killers = Vec::new();
    let r = alpha_beta(2, MIN_SCORE, MAX_SCORE, WHITE, true, &mut b, &mut table, &mut killers);
    assert_eq!(r.score, MIN_SCORE);
    assert!(r.best_move.is_none());
    let mut table = TranspositionTable::new(1);
    let r = alpha_beta(2, MIN_SCORE, MAX_SCORE, WHITE, false, &mut b, &mut table, &mut killers);
    assert_eq!(r.score, MAX_SCORE);
}

#[test]
fn position_keys_tell_positions_apart() {
    let a = rook_and_queen();
    let mut b = rook_and_queen();
    assert_eq!(a.get_hash(), b.get_hash());
    b.make_move(Move::new(1u64 << 0, 1u64 << 8));
    assert_ne!(a.get_hash(), b.get_hash());
}

#[test]
fn searches_end_where_the_generator_stops() {
    let mut b = rook_and_queen();
    assert!(generator_stops(&b, WHITE));
    assert!(search_terminates(&mut b, WHITE, 3));
    assert_eq!(b.get_piece_mask(ROOK, WHITE), 1u64 << 0);
    // White pawns on the second rank make the generator repeat without end.
    let mut started = Chessboard::default();
    started.init();
    assert!(!generator_stops(&started, WHITE));
    assert!(!search_terminates(&mut started, WHITE, 1));
    assert!(search_terminates(&mut started, WHITE, 0));
}
