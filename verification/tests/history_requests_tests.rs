use chessnetwork::board_history::board::{Chessboard, BLACK, WHITE};
use chessnetwork::board_history::requests::{
    i8_to_text, key_value, new_session, parse_move_query, parse_piece_query, parse_u8,
    requested_moves, split_on, PieceQuery,
};
use chessnetwork::constants::{KNIGHT, PAWN};

#[test]
fn splitting_like_str_split() {
    assert_eq!(split_on("a=1&b=2", '&'), vec!["a=1".to_string(), "b=2".to_string()]);
    assert_eq!(split_on("", '&'), vec![String::new()]);
    assert_eq!(split_on("a&&b&", '&'), vec!["a".to_string(), String::new(), "b".to_string(), String::new()]);
}

#[test]
fn key_values() {
    assert_eq!(key_value("x=3"), Some(("x".to_string(), "3".to_string())));
    assert_eq!(key_value("a=b=c"), Some(("a".to_string(), "b".to_string())));
    assert_eq!(key_value("x="), Some(("x".to_string(), String::new())));
    assert_eq!(key_value("x"), None);
}

#[test]
fn u8_parsing_matches_std() {
    for text in ["0", "7", "007", "+7", "255", "256", "", "+", "-1", "12a", " 1", "1000"] {
        assert_eq!(parse_u8(text), text.parse::<u8>().ok(), "{text:?}");
    }
}

#[test]
fn piece_queries() {
    match parse_piece_query("x=1&y=0&piece=black_knight") {
        PieceQuery::Fields { x, y, piece } => assert_eq!((x, y, piece.as_str()), (1, 0, "black_knight")),
        _ => panic!("fields expected"),
    }
    match parse_piece_query("piece=white_rook") {
        PieceQuery::Fields { x, y, .. } => assert_eq!((x, y), (8, 8)),
        _ => panic!("fields expected"),
    }
    assert!(matches!(parse_piece_query("x=1&z=2&y"), PieceQuery::UnknownKey));
    assert!(matches!(parse_piece_query("x=1&y"), PieceQuery::Malformed));
    assert!(matches!(parse_piece_query("x=300&z=1"), PieceQuery::Malformed));
}

#[test]
fn move_queries() {
    let q = parse_move_query("from_x=4&from_y=6&to_x=4&to_y=5&piece=black_pawn&foo=1");
    assert_eq!(q, Some((4, 6, 4, 5, "black_pawn".to_string())));
    assert_eq!(parse_move_query("foo=1"), Some((8, 8, 8, 8, String::new())));
    assert_eq!(parse_move_query("from_x=a"), None);
    assert_eq!(parse_move_query("from_x"), None);
}

#[test]
fn numbers_as_text() {
    for v in [-128i8, -1, 0, 7, 10, 42, 99, 100, 127] {
        assert_eq!(i8_to_text(v), v.to_string());
    }
}

#[test]
fn moves_of_a_clicked_piece() {
    let mut board = Chessboard::default();
    board.init();
    let moves = requested_moves(&board, 1, 0, "black_knight");
    let pairs: Vec<(u32, u32)> = moves
        .iter()
        .map(|m| (m.get_from_mask().trailing_zeros(), m.get_to_mask().trailing_zeros()))
        .collect();
    assert_eq!(pairs, vec![(1, 11), (1, 16), (1, 18)]);
    assert!(requested_moves(&board, 1, 0, "white_knight").is_empty());
    assert!(requested_moves(&board, 4, 0, "black_king").is_empty());
    assert!(requested_moves(&board, 1, 0, "dragon").is_empty());
}

#[test]
fn a_session_plays_requested_moves() {
    let mut s = new_session("5".to_string());
    assert_eq!(s.get_turn(), 1);
    assert!(s.apply_move_query("from_x=1&from_y=0&to_x=2&to_y=2&piece=black_knight"));
    assert_eq!(s.get_turn(), -1);
    let b = s.get_board_state();
    assert_eq!(b.get_piece_mask(KNIGHT, BLACK), (1u64 << 6) | (1u64 << 18));
    assert_eq!(b.get_history().len(), 1);
    // Nothing stands on square 20, and a coordinate off the board is refused.
    assert!(!s.apply_move_query("from_x=4&from_y=2&to_x=4&to_y=3"));
    assert!(!s.apply_move_query("from_x=9&from_y=7&to_x=0&to_y=0"));
    assert!(!s.apply_move_query("from_x"));
    assert_eq!(s.get_turn(), -1);
    assert_eq!(s.get_board_state().get_piece_mask(PAWN, WHITE), 0xFF00);
}

#[test]
fn session_object_text() {
    let s = new_session("5".to_string());
    let text = s.session_object();
    assert!(text.starts_with("{\"board\":{\n\t\"board\": [\n"));
    assert!(text.ends_with("]\n,\"turn\":1,\"opponent\":\"-1\",\"user\":\"1\",\"session_id\":\"5\"}"));
    assert_eq!(s.get_user_color(), WHITE);
    assert_eq!(s.get_opponent_color(), BLACK);
}
