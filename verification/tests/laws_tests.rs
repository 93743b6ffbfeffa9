use chessnetwork::zobrist::ZobristTable;
use chessnetwork::chess_move::Move;
use chessnetwork::chessboard::Chessboard;
use chessnetwork::constants::{BISHOP, BLACK, KING, KNIGHT, PAWN, QUEEN, ROOK, WHITE};
use chessnetwork::engine::{evaluate, evaluate_heuristics, pick_last_best, Engine};
use chessnetwork::heuristics::HeuristicParams;
use chessnetwork::movegenerator::generate_moves;

fn sq(i: u64) -> u64 {
    1u64 << i
}

fn consistent(b: &Chessboard) -> bool {
    let kinds = [PAWN, KNIGHT, BISHOP, ROOK, QUEEN, KING];
    let mut white = 0u64;
    let mut black = 0u64;
    let mut seen = 0u64;
    for &k in kinds.iter() {
        for color in [WHITE, BLACK] {
            let m = b.get_piece_mask(k, color);
            if m & seen != 0 {
                return false;
            }
            seen |= m;
            if color == WHITE {
                white |= m;
            } else {
                black |= m;
            }
        }
    }
    white == b.get_white_pieces() && black == b.get_black_pieces()
}

#[test]
fn playing_moves_keeps_the_board_consistent() {
    let mut b = Chessboard::new();
    assert!(consistent(&b));
    b.move_piece(PAWN, WHITE, &Move::double_pawn_push(sq(11), sq(27), PAWN, WHITE));
    assert!(consistent(&b));
    assert_eq!(b.get_en_passant(), 4);
    b.move_piece(PAWN, BLACK, &Move::double_pawn_push(sq(52), sq(36), PAWN, BLACK));
    assert!(consistent(&b));
    b.move_piece(PAWN, WHITE, &Move::new(sq(27), sq(36), PAWN, WHITE));
    assert!(consistent(&b));
    assert_eq!(b.get_piece_mask(PAWN, BLACK) & sq(36), 0);
    assert_eq!(b.get_en_passant(), 0);
    b.move_piece(KNIGHT, WHITE, &Move::new(sq(1), sq(18), KNIGHT, WHITE));
    b.move_piece(BISHOP, WHITE, &Move::new(sq(2), sq(20), BISHOP, WHITE));
    b.move_piece(KING, WHITE, &Move::castling(sq(3), sq(1), KING, WHITE, sq(0), sq(2)));
    assert!(consistent(&b));
    assert_ne!(b.get_piece_mask(KING, WHITE) & sq(1), 0);
    assert_ne!(b.get_piece_mask(ROOK, WHITE) & sq(2), 0);
}

#[test]
fn castling_rights_are_only_lost() {
    let mut b = Chessboard::new();
    let mut before = b.get_castling_rights();
    for (from, to) in [(sq(12), sq(28)), (sq(0), sq(8)), (sq(40), sq(63)), (sq(59), sq(51)), (sq(8), sq(0))] {
        b.update_castling_rights(from, to);
        let now = b.get_castling_rights();
        assert_eq!(now & !before, 0);
        assert_eq!(now & !0b1111, 0);
        before = now;
    }
    assert_eq!(before, 0b1000);
}

#[test]
fn heuristics_scale_with_the_weights() {
    let mut b = Chessboard::new();
    b.move_piece(KNIGHT, WHITE, &Move::new(sq(1), sq(18), KNIGHT, WHITE));
    let h = HeuristicParams::default();
    let doubled = HeuristicParams {
        two_middle_pawns_weight: 2 * h.two_middle_pawns_weight,
        castling_weight: 2 * h.castling_weight,
        development_weight: 2 * h.development_weight,
        mobility_weight: 2 * h.mobility_weight,
        knight_outpost_weight: 2 * h.knight_outpost_weight,
    };
    let zero = HeuristicParams {
        two_middle_pawns_weight: 0,
        castling_weight: 0,
        development_weight: 0,
        mobility_weight: 0,
        knight_outpost_weight: 0,
    };
    for color in [WHITE, BLACK] {
        assert_eq!(evaluate_heuristics(&b, color, &doubled), 2 * evaluate_heuristics(&b, color, &h));
        assert_eq!(evaluate_heuristics(&b, color, &zero), 0);
    }
}

#[test]
fn last_best_score_wins() {
    let moves = vec![
        Move::new(sq(8), sq(16), PAWN, WHITE),
        Move::new(sq(9), sq(17), PAWN, WHITE),
        Move::new(sq(10), sq(18), PAWN, WHITE),
        Move::new(sq(11), sq(19), PAWN, WHITE),
    ];
    assert_eq!(pick_last_best(&moves, &vec![3, 5, 5, 1]), Some(moves[2]));
    assert_eq!(pick_last_best(&moves, &vec![7, 5, 5, 1]), Some(moves[0]));
    assert_eq!(pick_last_best(&Vec::new(), &Vec::new()), None);
}

#[test]
fn one_ply_engine_takes_the_last_best_evaluated_move() {
    let mut b = Chessboard::new();
    let h = HeuristicParams::default();
    let legal = generate_moves(&mut b, WHITE);
    let mut best = None;
    let mut best_score = i32::MIN;
    for m in legal.iter() {
        let mut after = b;
        after.move_piece(m.get_piece_type(), m.get_color(), m);
        let score = evaluate(&after, BLACK, &h);
        if best.is_none() || score >= best_score {
            best = Some(*m);
            best_score = score;
        }
    }
    let mut engine = Engine::new(1, WHITE, h, 1);
    assert_eq!(engine.get_best_move(b), best);
}

#[test]
fn toggles_agree_with_the_full_hash() {
    let mut b = Chessboard::new();
    b.move_piece(KNIGHT, WHITE, &Move::new(sq(1), sq(18), KNIGHT, WHITE));
    let z = ZobristTable::new(b);
    let mut h = z.hash(&b, WHITE);
    z.toggle_side(&mut h);
    assert_eq!(h, z.hash(&b, BLACK));
    for i in 0..4usize {
        let mut h = z.hash(&b, WHITE);
        z.toggle_castling(&mut h, i);
        let mut b2 = b;
        b2.set_castling_rights(b.get_castling_rights() ^ (1u8 << i));
        assert_eq!(h, z.hash(&b2, WHITE));
    }
    let mut h = z.hash(&b, WHITE);
    z.toggle_en_passant(&mut h, 5);
    let mut b3 = b;
    b3.set_en_passant(5);
    assert_eq!(h, z.hash(&b3, WHITE));
    z.toggle_en_passant(&mut h, 5);
    assert_eq!(h, z.hash(&b, WHITE));
}

#[test]
fn move_masks_have_one_set_bit() {
    for (f, t) in [(0u64, 63u64), (12, 28), (63, 0)] {
        let m = Move::new(sq(f), sq(t), QUEEN, BLACK);
        assert_eq!(m.get_from_mask().count_ones(), 1);
        assert_eq!(m.get_to_mask().count_ones(), 1);
        assert_eq!(m.get_from_mask(), sq(f));
        assert_eq!(m.get_to_mask(), sq(t));
        assert_eq!(m.get_piece_type(), QUEEN);
        assert_eq!(m.get_color(), BLACK);
    }
}

#[test]
fn deeper_engines_still_choose_a_legal_move() {
    let mut b = Chessboard::new();
    let mut engine = Engine::new(2, BLACK, HeuristicParams::default(), 1);
    let legal = generate_moves(&mut b, BLACK);
    let m = engine.get_best_move(b).unwrap();
    assert!(legal.contains(&m));
}
