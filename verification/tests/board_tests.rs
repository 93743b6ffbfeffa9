use chessnetwork::chess_move::{Move, MoveType};
use chessnetwork::chessboard::{piece_index, Chessboard};
use chessnetwork::constants::{
    BISHOP, BLACK, BLACK_KINGSIDE_CASTLE, BLACK_QUEENSIDE_CASTLE, EMPTY, KING, KNIGHT, NONE, PAWN,
    QUEEN, ROOK, WHITE, WHITE_KINGSIDE_CASTLE, WHITE_QUEENSIDE_CASTLE,
};
use chessnetwork::game::{Game, GameStatus};
use chessnetwork::movegenerator::{generate_moves, is_square_attacked};

fn sq(i: u64) -> u64 {
    1u64 << i
}

#[test]
fn move_encoding_round_trip() {
    let mv = Move::new(sq(12), sq(28), PAWN, WHITE);
    assert_eq!(mv.get_from_mask(), sq(12));
    assert_eq!(mv.get_to_mask(), sq(28));
    assert_eq!(mv.get_from_idx(), 12);
    assert_eq!(mv.get_to_idx(), 28);
    assert_eq!(mv.get_piece_type(), PAWN);
    assert_eq!(mv.get_color(), WHITE);
    assert_eq!(mv.get_from_x(), 4);
    assert_eq!(mv.get_from_y(), 1);
    assert_eq!(mv.get_to_x(), 4);
    assert_eq!(mv.get_to_y(), 3);
    assert_eq!(mv.move_type(), MoveType::Normal);
    assert!(!mv.is_en_passant());
    assert!(!mv.is_castling());

    let black = Move::new(sq(62), sq(45), KNIGHT, BLACK);
    assert_eq!(black.get_color(), BLACK);
    assert_eq!(black.get_piece_type(), KNIGHT);
    assert_eq!(black.get_from_idx(), 62);
    assert_eq!(black.get_to_idx(), 45);
}

#[test]
fn special_moves_keep_their_data() {
    let ep = Move::en_passant(sq(36), sq(43), PAWN, WHITE, sq(35));
    assert!(ep.is_en_passant());
    assert_eq!(ep.move_type(), MoveType::EnPassant { captured_square: sq(35) });
    let castle = Move::castling(sq(3), sq(1), KING, WHITE, sq(0), sq(2));
    assert!(castle.is_castling());
    assert_eq!(castle.move_type(), MoveType::Castling { rook_from: sq(0), rook_to: sq(2) });
    let promo = Move::promotion(sq(52), sq(60), PAWN, WHITE, QUEEN);
    assert_eq!(promo.move_type(), MoveType::Promotion { promoted_piece: QUEEN });
    let push = Move::double_pawn_push(sq(12), sq(28), PAWN, WHITE);
    assert_eq!(push.move_type(), MoveType::DoublePawnPush);
}

#[test]
fn piece_index_slots() {
    assert_eq!(piece_index(PAWN, WHITE), Some(0));
    assert_eq!(piece_index(KING, WHITE), Some(5));
    assert_eq!(piece_index(PAWN, BLACK), Some(6));
    assert_eq!(piece_index(KING, BLACK), Some(11));
}

#[test]
fn starting_position() {
    let board = Chessboard::new();
    assert_eq!(board.get_white_pieces(), 0x0000_0000_0000_FFFF);
    assert_eq!(board.get_black_pieces(), 0xFFFF_0000_0000_0000);
    assert_eq!(board.get_piece_mask(PAWN, WHITE), 0xFF00);
    assert_eq!(board.get_piece_mask(KING, WHITE), sq(3));
    assert_eq!(board.get_piece_mask(QUEEN, WHITE), sq(4));
    assert_eq!(board.get_piece_mask(KING, BLACK), sq(59));
    assert_eq!(board.get_piece_mask(QUEEN, BLACK), sq(60));
    assert_eq!(board.get_castling_rights(), 0b1111);
    assert_eq!(board.get_en_passant(), 0);
    assert_eq!(board.get_piece_at(sq(0)), (ROOK, WHITE));
    assert_eq!(board.get_piece_at(sq(62)), (KNIGHT, BLACK));
    assert_eq!(board.get_piece_at(sq(27)), (EMPTY, NONE));
}

#[test]
fn json_listing_of_start() {
    let mut board = Chessboard::new();
    let json = board.convert_to_json();
    let rows = [
        ["black_rook", "black_knight", "black_bishop", "black_queen", "black_king", "black_bishop", "black_knight", "black_rook"],
        ["black_pawn"; 8],
        ["empty"; 8],
        ["empty"; 8],
        ["empty"; 8],
        ["empty"; 8],
        ["white_pawn"; 8],
        ["white_rook", "white_knight", "white_bishop", "white_queen", "white_king", "white_bishop", "white_knight", "white_rook"],
    ];
    let mut expected = String::from("{\n\t\"board\": [\n");
    for (r, row) in rows.iter().enumerate() {
        expected.push_str("\t\t[");
        let cells: Vec<String> = row.iter().map(|c| format!("\"{}\"", c)).collect();
        expected.push_str(&cells.join(", "));
        expected.push_str(if r != 7 { "],\n" } else { "]\n" });
    }
    expected.push_str("\t]\n}\n");
    assert_eq!(json, expected);
    let parsed: serde_json::Value = serde_json::from_str(&json).unwrap();
    assert_eq!(parsed["board"][7][4], "white_king");
    assert_eq!(parsed["board"][0][4], "black_king");
}

#[test]
fn move_piece_captures_and_relocates() {
    let mut board = Chessboard::new();
    let mv = Move::new(sq(1), sq(18), KNIGHT, WHITE);
    board.move_piece(KNIGHT, WHITE, &mv);
    assert_eq!(board.get_piece_at(sq(18)), (KNIGHT, WHITE));
    assert_eq!(board.get_piece_at(sq(1)), (EMPTY, NONE));
    assert_eq!(board.get_white_pieces() & sq(1), 0);
    assert_ne!(board.get_white_pieces() & sq(18), 0);
    assert_eq!(board.get_en_passant(), 0);

    let push = Move::double_pawn_push(sq(12), sq(28), PAWN, WHITE);
    board.move_piece(PAWN, WHITE, &push);
    assert_eq!(board.get_en_passant(), 5);
}

#[test]
fn castling_rights_follow_king_and_rooks() {
    let mut board = Chessboard::new();
    board.update_castling_rights(sq(3), sq(11));
    assert_eq!(board.get_castling_rights(), BLACK_KINGSIDE_CASTLE | BLACK_QUEENSIDE_CASTLE);
    let mut board = Chessboard::new();
    board.update_castling_rights(sq(40), sq(63));
    assert_eq!(board.get_castling_rights(), WHITE_KINGSIDE_CASTLE | WHITE_QUEENSIDE_CASTLE | BLACK_KINGSIDE_CASTLE);
}

#[test]
fn castling_rights_bit_layout() {
    let mut board = Chessboard::new();
    board.update_castling_rights(sq(3), sq(11));
    assert_eq!(board.get_castling_rights(), 0b0011);
    let mut board = Chessboard::new();
    board.update_castling_rights(sq(0), sq(8));
    assert_eq!(board.get_castling_rights(), 0b1011);
    let mut board = Chessboard::new();
    board.update_castling_rights(sq(27), sq(63));
    assert_eq!(board.get_castling_rights(), 0b1101);
}

#[test]
fn twenty_moves_each_side_at_start() {
    let mut board = Chessboard::new();
    let white = generate_moves(&mut board, WHITE);
    assert_eq!(white.len(), 20);
    let black = generate_moves(&mut board, BLACK);
    assert_eq!(black.len(), 20);
    assert!(white.iter().all(|m| m.get_color() == WHITE));
    assert!(black.iter().all(|m| m.get_color() == BLACK));
}

#[test]
fn attacked_squares_at_start() {
    let board = Chessboard::new();
    assert!(is_square_attacked(&board, sq(20), WHITE));
    // Pawn pushes count as attacks, so the double-push square is covered.
    assert!(is_square_attacked(&board, sq(28), WHITE));
    assert!(!is_square_attacked(&board, sq(36), WHITE));
    assert!(is_square_attacked(&board, sq(44), BLACK));
    assert!(!is_square_attacked(&board, sq(20), BLACK));
}

#[test]
fn game_undo_restores_the_position() {
    let mut game = Game::new();
    let before = *game.board();
    let mv = Move::new(sq(12), sq(28), PAWN, WHITE);
    assert_eq!(game.make_move(mv), Ok(GameStatus::Ongoing));
    assert_eq!(game.turn(), BLACK);
    assert_eq!(game.get_history().len(), 1);
    assert_eq!(game.board().get_piece_at(sq(28)), (PAWN, WHITE));
    game.undo_state();
    assert_eq!(game.turn(), WHITE);
    assert_eq!(game.get_history().len(), 0);
    assert_eq!(game.board().get_pieces(), before.get_pieces());
    assert_eq!(game.board().get_white_pieces(), before.get_white_pieces());
    assert_eq!(game.board().get_castling_rights(), before.get_castling_rights());
}

#[test]
fn undo_without_history_changes_nothing() {
    let mut game = Game::new();
    game.undo_state();
    assert_eq!(game.turn(), WHITE);
    assert_eq!(game.board().get_piece_mask(BISHOP, BLACK), 0x2400_0000_0000_0000);
}

use chessnetwork::display::bitboard_text;

#[test]
fn bitboard_picture() {
    let text = bitboard_text(0b101 | (1u64 << 63));
    let lines: Vec<&str> = text.lines().collect();
    assert_eq!(lines.len(), 8);
    assert_eq!(lines[0], "|1|0|1|0|0|0|0|0");
    assert_eq!(lines[1], "|0|0|0|0|0|0|0|0");
    assert_eq!(lines[7], "|0|0|0|0|0|0|0|1");
    assert!(text.ends_with('\n'));
}

#[test]
fn board_picture_of_start() {
    let board = Chessboard::new();
    let text = board.board_text();
    let expected = String::from("\n")
        + "8|-4|-2|-3|-5|-6|-3|-2|-4|\n"
        + "7|-1|-1|-1|-1|-1|-1|-1|-1|\n"
        + "6|  |  |  |  |  |  |  |  |\n"
        + "5|  |  |  |  |  |  |  |  |\n"
        + "4|  |  |  |  |  |  |  |  |\n"
        + "3|  |  |  |  |  |  |  |  |\n"
        + "2| 1| 1| 1| 1| 1| 1| 1| 1|\n"
        + "1| 4| 2| 3| 5| 6| 3| 2| 4|\n"
        + "   A  B  C  D  E  F  G  H\n";
    assert_eq!(text, expected);
}

#[test]
fn generated_moves_never_leave_the_king_attacked() {
    let mut board = Chessboard::new();
    for mv in generate_moves(&mut board, WHITE) {
        let mut next = board;
        next.move_piece(mv.get_piece_type(), mv.get_color(), &mv);
        assert!(!is_square_attacked(&next, next.get_piece_mask(KING, WHITE), BLACK));
    }
}

#[test]
fn two_square_pushes_are_double_pawn_pushes() {
    let board = Chessboard::new();
    let mut moves = Vec::new();
    chessnetwork::movegenerator::get_pawn_moves(&board, WHITE, &mut moves);
    assert_eq!(moves.len(), 16);
    for i in 0..8u64 {
        let single = moves.iter().find(|m| m.get_from_mask() == sq(8 + i) && m.get_to_mask() == sq(16 + i)).unwrap();
        assert_eq!(single.move_type(), MoveType::Normal);
        let double = moves.iter().find(|m| m.get_from_mask() == sq(8 + i) && m.get_to_mask() == sq(24 + i)).unwrap();
        assert_eq!(double.move_type(), MoveType::DoublePawnPush);
    }
    let mut board = Chessboard::new();
    let push = moves.iter().find(|m| m.get_to_mask() == sq(28)).unwrap();
    board.move_piece(PAWN, WHITE, push);
    assert_eq!(board.get_en_passant(), 5);
}
