use chessnetwork::board_history::board::{Chessboard, BLACK, NONE, WHITE};
use chessnetwork::board_history::fixed_heuristics::Heuristics;
use chessnetwork::board_history::mask_move::Move;
use chessnetwork::board_history::pieces::{Color, Piece, PieceType};
use chessnetwork::constants::{BISHOP, EMPTY, KING, KNIGHT, PAWN, QUEEN, ROOK};

fn started() -> Chessboard {
    let mut b = Chessboard::default();
    b.init();
    b
}

#[test]
fn piece_names_and_numbers() {
    assert_eq!(PieceType::Knight.name(), "Knight");
    assert_eq!(PieceType::Empty.number(), 0);
    assert_eq!(PieceType::King.number(), 6);
    assert_eq!(Color::Black.number(), -1);
    assert_eq!(Color::NoColor.name(), "None");
    assert_eq!(PieceType::try_from_i32(3), Ok(PieceType::Bishop));
    assert_eq!(PieceType::try_from_i32(7), Err(()));
    assert_eq!(Color::try_from_i32(-1), Ok(Color::Black));
    assert_eq!(Color::try_from_i32(2), Err(()));
}

#[test]
fn piece_text() {
    let p = Piece::new(PieceType::Pawn, Color::White);
    assert_eq!(p.get_piece_type(), PieceType::Pawn);
    assert_eq!(p.get_color(), Color::White);
    assert_eq!(p.to_string(), "White_\"Pawn\"");
    assert_eq!(Piece::new(PieceType::Queen, Color::Black).to_string(), "Black_\"Queen\"");
}

#[test]
fn mask_moves_and_coordinates() {
    let m = Move::new_from_coordinates(4, 1, 4, 3);
    assert_eq!(m.get_from_mask(), 1u64 << 12);
    assert_eq!(m.get_to_mask(), 1u64 << 28);
    assert_eq!((m.get_from_x(), m.get_from_y(), m.get_to_x(), m.get_to_y()), (4, 1, 4, 3));
    let n = Move::new(1u64 << 63, 1u64 << 0);
    assert_eq!((n.get_from_x(), n.get_from_y(), n.get_to_x(), n.get_to_y()), (7, 7, 0, 0));
    assert_eq!(Move::new(0, 0).get_from_y(), 8);
    assert_eq!(m, Move::new(1u64 << 12, 1u64 << 28));
}

#[test]
fn init_places_the_pieces() {
    let b = started();
    assert_eq!(b.get_piece_mask(PAWN, WHITE), 0xFF00);
    assert_eq!(b.get_piece_mask(PAWN, BLACK), 0x00FF_0000_0000_0000);
    assert_eq!(b.get_piece_mask(KING, WHITE), 1u64 << 60);
    assert_eq!(b.get_piece_mask(QUEEN, BLACK), 1u64 << 3);
    assert_eq!(b.get_white_pieces(), 0xFF00_0000_0000_FF00);
    assert_eq!(b.get_black_pieces(), 0x00FF_0000_0000_00FF);
    assert_eq!(b.get_castling_en_passant(), 0b1111_0000);
    assert!(b.get_history().is_empty());
    assert_eq!(b.get_piece_at(0), (ROOK, BLACK));
    assert_eq!(b.get_piece_at(62), (KNIGHT, WHITE));
    assert_eq!(b.get_piece_at(61), (BISHOP, WHITE));
    assert_eq!(b.get_piece_at(30), (EMPTY, NONE));
    assert_eq!(b.piece_index(PAWN, WHITE), Some(0));
    assert_eq!(b.piece_index(KING, BLACK), Some(11));
}

#[test]
fn make_and_undo_move() {
    let mut b = started();
    let before_pieces: Vec<u64> = [PAWN, KNIGHT, BISHOP, ROOK, QUEEN, KING]
        .iter()
        .flat_map(|&p| [b.get_piece_mask(p, WHITE), b.get_piece_mask(p, BLACK)])
        .collect();
    b.make_move(Move::new_from_coordinates(4, 1, 4, 3));
    assert_eq!(b.get_history().len(), 1);
    assert_eq!(b.get_piece_at(28), (PAWN, WHITE));
    assert_eq!(b.get_piece_at(12), (EMPTY, NONE));
    assert_ne!(b.get_white_pieces() & (1u64 << 28), 0);
    b.undo_move();
    assert!(b.get_history().is_empty());
    let after_pieces: Vec<u64> = [PAWN, KNIGHT, BISHOP, ROOK, QUEEN, KING]
        .iter()
        .flat_map(|&p| [b.get_piece_mask(p, WHITE), b.get_piece_mask(p, BLACK)])
        .collect();
    assert_eq!(before_pieces, after_pieces);
    assert_eq!(b.get_white_pieces(), 0xFF00_0000_0000_FF00);
    b.undo_move();
    assert_eq!(b.get_white_pieces(), 0xFF00_0000_0000_FF00);
}

#[test]
fn capture_clears_the_victim_bitboard_only() {
    let mut b = started();
    // A black rook on square 0 captures the white pawn on square 8.
    b.make_move(Move::new(1u64 << 0, 1u64 << 8));
    assert_eq!(b.get_piece_at(8), (ROOK, BLACK));
    assert_eq!(b.get_piece_mask(PAWN, WHITE), 0xFE00);
    // The white occupancy still holds the captured square.
    assert_ne!(b.get_white_pieces() & (1u64 << 8), 0);
    assert_ne!(b.get_black_pieces() & (1u64 << 8), 0);
}

#[test]
fn listing_of_the_start() {
    let mut b = started();
    let json = b.convert_to_json();
    assert!(json.starts_with("{\n\t\"board\": [\n\t\t[\"white_rook\", \"white_knight\", \"white_bishop\", \"white_queen\", \"white_king\", \"white_bishop\", \"white_knight\", \"white_rook\"],\n"));
    assert!(json.contains("\t\t[\"white_pawn\", \"white_pawn\", \"white_pawn\", \"white_pawn\", \"white_pawn\", \"white_pawn\", \"white_pawn\", \"white_pawn\"],\n"));
    assert!(json.ends_with("\t\t[\"black_rook\", \"black_knight\", \"black_bishop\", \"black_queen\", \"black_king\", \"black_bishop\", \"black_knight\", \"black_rook\"]\n"));
    assert_eq!(json.matches("empty").count(), 32);
}

#[test]
fn fixed_heuristics_score_ten_per_feature() {
    let mut b = started();
    let h = Heuristics::new(&b, WHITE);
    assert_eq!(h.two_middle_pawns(), 0);
    assert_eq!(h.castling(), 0);
    assert_eq!(h.development(), 0);
    assert_eq!(h.mobility(), 0);
    b.make_move(Move::new(1u64 << 60, 1u64 << 62));
    b.make_move(Move::new(1u64 << 63, 1u64 << 61));
    b.make_move(Move::new(1u64 << 12, 1u64 << 28));
    let h = Heuristics::new(&b, WHITE);
    assert_eq!(h.castling(), 10);
    assert_eq!(h.two_middle_pawns(), 10);
    assert_eq!(h.development(), 10);
    let hb = Heuristics::new(&b, BLACK);
    assert_eq!(hb.castling(), 0);
    assert_eq!(hb.knight_outpost(), 0);
}

use chessnetwork::board_history::movegen::{
    generate_moves as history_moves, get_king_moves as history_king_moves,
    get_knight_moves as history_knight_moves, get_pawn_moves as history_pawn_moves,
    get_queen_moves as history_queen_moves,
};

fn pairs(moves: &[Move]) -> Vec<(u32, u32)> {
    moves
        .iter()
        .map(|m| (m.get_from_mask().trailing_zeros(), m.get_to_mask().trailing_zeros()))
        .collect()
}

#[test]
fn black_moves_at_the_start() {
    let b = started();
    let moves = history_moves(&b, BLACK);
    assert_eq!(moves.len(), 29);
    let mut knights = Vec::new();
    history_knight_moves(&b, BLACK, &mut knights);
    assert_eq!(pairs(&knights), vec![(1, 11), (1, 16), (1, 18), (6, 12), (6, 21), (6, 23)]);
    let mut queens = Vec::new();
    history_queen_moves(&b, BLACK, &mut queens);
    assert_eq!(pairs(&queens), vec![(3, 10), (3, 12), (3, 11)]);
    let mut pawns = Vec::new();
    history_pawn_moves(&b, BLACK, &mut pawns);
    assert_eq!(pawns.len(), 14);
    assert_eq!(pairs(&pawns)[0], (49, 56));
    assert_eq!(pairs(&pawns)[7], (48, 57));
}

#[test]
fn white_pawn_steps_off_the_second_rank() {
    let mut b = Chessboard::default();
    b.set_piece_mask(PAWN, WHITE, 1u64 << 20);
    b.set_piece_mask(KNIGHT, BLACK, (1u64 << 11) | (1u64 << 13));
    b.set_white_pieces(1u64 << 20);
    b.set_black_pieces((1u64 << 11) | (1u64 << 13));
    let mut pawns = Vec::new();
    history_pawn_moves(&b, WHITE, &mut pawns);
    // White steps towards higher squares but captures towards lower ones.
    assert_eq!(pairs(&pawns), vec![(20, 28), (20, 11), (20, 13)]);
}

#[test]
fn kings_have_no_moves_here() {
    let b = started();
    let mut moves = vec![Move::new(1, 2)];
    history_king_moves(&b, WHITE, &mut moves);
    assert_eq!(moves, vec![Move::new(1, 2)]);
}

use chessnetwork::board_history::evaluation::{evaluate as history_evaluate, heuristics as history_heuristics, material as history_material};

#[test]
fn history_evaluation() {
    let mut b = started();
    assert_eq!(history_material(&b, WHITE), 0);
    assert_eq!(history_heuristics(&b, WHITE), 0);
    assert_eq!(history_evaluate(&b, BLACK), 0);
    // Without one black knight: the material loop weighs knights with the
    // first value of its table (10) and never counts pawns.
    b.set_piece_mask(KNIGHT, BLACK, 1u64 << 6);
    assert_eq!(history_material(&b, WHITE), 10);
    assert_eq!(history_material(&b, BLACK), -10);
    b.set_piece_mask(PAWN, BLACK, 0);
    assert_eq!(history_material(&b, WHITE), 10);
    b.set_piece_mask(QUEEN, BLACK, 0);
    assert_eq!(history_material(&b, WHITE), 10 + 50);
    b.set_piece_mask(KING, BLACK, 0);
    assert_eq!(history_evaluate(&b, WHITE), 10 + 50 + 90);
}
