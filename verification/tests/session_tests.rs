use chessnetwork::chess_move::Move;
use chessnetwork::chessboard::Chessboard;
use chessnetwork::constants::{BLACK, EMPTY, KING, NONE, PAWN, WHITE};
use chessnetwork::movegenerator::generate_moves;
use chessnetwork::session::{
    engine_reply_move, move_json, move_to_special_move_hint, moves_from_square, new_session, select_move, MoveJson,
    Session, SpecialMoveHint,
};

fn sq(i: u64) -> u64 {
    1u64 << i
}

#[test]
fn hints_name_special_moves() {
    assert_eq!(move_to_special_move_hint(&Move::new(sq(12), sq(20), PAWN, WHITE)), SpecialMoveHint::Normal);
    assert_eq!(
        move_to_special_move_hint(&Move::en_passant(sq(36), sq(43), PAWN, WHITE, sq(35))),
        SpecialMoveHint::EnPassant
    );
    assert_eq!(
        move_to_special_move_hint(&Move::castling(sq(3), sq(1), KING, WHITE, sq(0), sq(2))),
        SpecialMoveHint::Castling
    );
    assert_eq!(
        move_to_special_move_hint(&Move::double_pawn_push(sq(12), sq(28), PAWN, WHITE)),
        SpecialMoveHint::Normal
    );
}

#[test]
fn move_json_gives_coordinates() {
    let j = move_json(&Move::new(sq(12), sq(28), PAWN, WHITE));
    assert_eq!(
        j,
        MoveJson { from_x: 4, from_y: 1, to_x: 4, to_y: 3, special_move: SpecialMoveHint::Normal }
    );
}

#[test]
fn moves_from_a_square_are_filtered_in_order() {
    let mut board = Chessboard::new();
    let moves = generate_moves(&mut board, WHITE);
    let from_e2 = moves_from_square(&moves, 4, 1);
    assert_eq!(
        from_e2,
        vec![
            MoveJson { from_x: 4, from_y: 1, to_x: 4, to_y: 2, special_move: SpecialMoveHint::Normal },
            MoveJson { from_x: 4, from_y: 1, to_x: 4, to_y: 3, special_move: SpecialMoveHint::Normal },
        ]
    );
    assert!(moves_from_square(&moves, 4, 4).is_empty());
}

#[test]
fn select_move_finds_the_first_match() {
    let mut board = Chessboard::new();
    let moves = generate_moves(&mut board, WHITE);
    let found = select_move(&moves, 4, 1, 4, 3, None).expect("e2-e4 is legal");
    assert_eq!(found.get_from_mask(), sq(12));
    assert_eq!(found.get_to_mask(), sq(28));
    assert!(select_move(&moves, 4, 1, 4, 3, Some(SpecialMoveHint::Normal)).is_some());
    assert!(select_move(&moves, 4, 1, 4, 3, Some(SpecialMoveHint::Castling)).is_none());
    assert!(select_move(&moves, 4, 1, 4, 4, None).is_none());
}

#[test]
fn new_session_starts_white_to_move() {
    let s = new_session("42".to_string());
    assert_eq!(s.get_id(), "42");
    assert_eq!(s.get_turn(), WHITE);
    assert_eq!(s.get_user_color(), WHITE);
    assert_eq!(s.get_opponent_color(), BLACK);
    assert_eq!(s.opponent_of_user(), BLACK);
    assert_eq!(s.get_board_state().get_white_pieces(), 0xFFFF);
}

#[test]
fn possible_moves_of_a_session() {
    let s = new_session("1".to_string());
    let knight = s.possible_moves(1, 0, WHITE);
    assert_eq!(knight.len(), 2);
    assert!(knight.iter().all(|m| m.from_x == 1 && m.from_y == 0));
    assert!(s.possible_moves(1, 0, BLACK).is_empty());
}

#[test]
fn move_requests_play_and_pass_the_turn() {
    let mut s = new_session("7".to_string());
    assert!(s.move_piece_request(4, 1, 4, 3, None));
    assert_eq!(s.get_turn(), BLACK);
    assert_eq!(s.get_board_state().get_piece_at(sq(28)), (PAWN, WHITE));
    assert_eq!(s.get_board_state().get_piece_at(sq(12)), (EMPTY, NONE));
    // The same square again is no longer a white move, and now black is to move.
    assert!(!s.move_piece_request(4, 1, 4, 3, None));
    assert_eq!(s.get_turn(), BLACK);
    assert!(s.move_piece_request(4, 6, 4, 4, Some(SpecialMoveHint::Normal)));
    assert_eq!(s.get_turn(), WHITE);
    assert_eq!(s.get_board_state().get_piece_at(sq(36)), (PAWN, BLACK));
}

#[test]
fn illegal_request_leaves_the_session_alone() {
    let mut s = new_session("9".to_string());
    let before = s.get_board_state();
    assert!(!s.move_piece_request(0, 0, 0, 5, None));
    assert_eq!(s.get_turn(), WHITE);
    assert_eq!(s.get_board_state().get_pieces(), before.get_pieces());
}

#[test]
fn engine_reply_without_black_moves() {
    let mut board = Chessboard::new();
    let mut pieces = [0u64; 12];
    pieces[5] = sq(3);
    pieces[4] = sq(45) | sq(46);
    pieces[11] = sq(63);
    board.set_pieces(pieces);
    board.set_white_pieces(sq(3) | sq(45) | sq(46));
    board.set_black_pieces(sq(63));
    assert_eq!(engine_reply_move(&board, 1), None);
    let s = Session::new("x".to_string(), board, BLACK, WHITE, BLACK);
    assert_eq!(s.get_turn(), BLACK);
    assert_eq!(s.get_board_state().get_black_pieces(), sq(63));
}

#[test]
fn session_make_move_flips_turn() {
    let mut s = new_session("3".to_string());
    s.make_move(Move::new(sq(6), sq(21), 2, WHITE));
    assert_eq!(s.get_turn(), BLACK);
    assert_eq!(s.get_board_state().get_piece_at(sq(21)), (2, WHITE));
}
