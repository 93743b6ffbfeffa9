//! Move generation on bitboards: pseudo-legal moves of each piece kind,
//! attack detection, and the legal moves of a side.
use vstd::prelude::*;

verus! {

use crate::bits::{low_index, low_square, without_low, expand, lemma_low_index};
use crate::chess_move::{
    Move,
    MoveType,
    encode,
    to_index_of,
    piece_type_of,
    color_bit_of,
    lemma_encode_piece_color,
};
use crate::chessboard::{
    Chessboard,
    BoardView,
    mask_of,
    move_piece_view,
    lemma_move_piece_en_passant,
};
use crate::constants::{
    PAWN,
    KNIGHT,
    BISHOP,
    ROOK,
    QUEEN,
    KING,
    WHITE,
    BLACK,
    RANK_1,
    RANK_3,
    RANK_6,
    RANK_8,
    FILE_0,
    FILE_1,
    FILE_6,
    FILE_7,
    WHITE_KINGSIDE_CASTLE,
    WHITE_QUEENSIDE_CASTLE,
    BLACK_KINGSIDE_CASTLE,
    BLACK_QUEENSIDE_CASTLE,
    is_color,
    is_piece_type,
    opponent,
};

/// The views of a list of moves.
pub open spec fn views(s: Seq<Move>) -> Seq<(u16, MoveType)> {
    s.map_values(|m: Move| m@)
}

/// A normal move, as a view.
pub open spec fn normal(from: u64, to: u64, piece: u8, color: u8) -> (u16, MoveType) {
    (encode(from, to, piece, color), MoveType::Normal)
}

/// A pawn promotion, as a view.
pub open spec fn promotion(from: u64, to: u64, color: u8, promoted: u8) -> (u16, MoveType) {
    (encode(from, to, PAWN, color), MoveType::Promotion { promoted_piece: promoted })
}

/// The occupancy of `color`.
pub open spec fn own_occupancy(v: BoardView, color: u8) -> u64 {
    if color == WHITE {
        v.white
    } else {
        v.black
    }
}

/// Normal moves of `piece` from `from` to each square of `targets`, lowest first.
pub open spec fn target_moves(from: u64, targets: u64, piece: u8, color: u8) -> Seq<(u16, MoveType)> {
    expand(targets, |to: u64| seq![normal(from, to, piece, color)])
}

/// The origin of a pawn move that reaches `to` by `shift` squares.
pub open spec fn pawn_origin(to: u64, shift: u64, up: bool) -> u64 {
    if up {
        to >> shift
    } else {
        to << shift
    }
}

/// Normal pawn moves reaching each square of `targets`, lowest first.
pub open spec fn step_moves(targets: u64, shift: u64, up: bool, color: u8) -> Seq<(u16, MoveType)> {
    expand(targets, |to: u64| seq![normal(pawn_origin(to, shift, up), to, PAWN, color)])
}

/// Two-square pawn pushes reaching each square of `targets`, lowest first.
pub open spec fn double_push_moves(targets: u64, up: bool, color: u8) -> Seq<(u16, MoveType)> {
    expand(
        targets,
        |to: u64| seq![(encode(pawn_origin(to, 16, up), to, PAWN, color), MoveType::DoublePawnPush)],
    )
}

/// The four promotions (queen, rook, bishop, knight) of a pawn move.
pub open spec fn promotions_to(from: u64, to: u64, color: u8) -> Seq<(u16, MoveType)> {
    seq![
        promotion(from, to, color, QUEEN),
        promotion(from, to, color, ROOK),
        promotion(from, to, color, BISHOP),
        promotion(from, to, color, KNIGHT),
    ]
}

/// Promotions reaching each square of `targets`, lowest first.
pub open spec fn promotion_moves(targets: u64, shift: u64, up: bool, color: u8) -> Seq<(u16, MoveType)> {
    expand(targets, |to: u64| promotions_to(pawn_origin(to, shift, up), to, color))
}

/// The en passant file of the board can be turned into a square for a pawn
/// of `color` (the generator shifts by `file - 1` plus the rank offset).
pub open spec fn en_passant_in_range(v: BoardView, color: u8) -> bool {
    if color == WHITE {
        v.en_passant <= 24
    } else {
        v.en_passant <= 48
    }
}

/// The en passant captures available to the pawns `pawns` of `color`.
pub open spec fn en_passant_moves(v: BoardView, color: u8, pawns: u64) -> Seq<(u16, MoveType)> {
    let ep = v.en_passant;
    if ep == 0 {
        Seq::empty()
    } else if color == WHITE {
        let to = 1u64 << ((ep - 1 + 40) as u64);
        let captured = to >> 8u64;
        let right = (captured & !FILE_0) >> 1u64;
        let left = (captured & !FILE_7) << 1u64;
        (if right & pawns != 0 {
            seq![(encode(right, to, PAWN, WHITE), MoveType::EnPassant { captured_square: captured })]
        } else {
            Seq::empty()
        }) + (if left & pawns != 0 {
            seq![(encode(left, to, PAWN, WHITE), MoveType::EnPassant { captured_square: captured })]
        } else {
            Seq::empty()
        })
    } else {
        let to = 1u64 << ((ep - 1 + 16) as u64);
        let captured = to << 8u64;
        let right = (captured & !FILE_7) << 1u64;
        let left = (captured & !FILE_0) >> 1u64;
        (if right & pawns != 0 {
            seq![(encode(right, to, PAWN, BLACK), MoveType::EnPassant { captured_square: captured })]
        } else {
            Seq::empty()
        }) + (if left & pawns != 0 {
            seq![(encode(left, to, PAWN, BLACK), MoveType::EnPassant { captured_square: captured })]
        } else {
            Seq::empty()
        })
    }
}

/// The pawn moves of `color`, in the order the generator lists them: single
/// pushes, double pushes, captures to each side, en passant captures, then
/// promotions by capture to each side and by push.
pub open spec fn pawn_moves_spec(v: BoardView, color: u8) -> Seq<(u16, MoveType)> {
    if color == WHITE {
        let pieces = v.white;
        let opp = v.black;
        let pawns = mask_of(v, PAWN, WHITE);
        let push = ((pawns & !RANK_8) << 8u64) & !(pieces | opp);
        let promo = push & RANK_8;
        let single = push & !promo;
        let double = ((single & RANK_3) << 8u64) & !(pieces | opp);
        let right0 = ((pawns & !FILE_0) << 7u64) & opp;
        let left0 = ((pawns & !FILE_7) << 9u64) & opp;
        let right_promo = right0 & RANK_8;
        let left_promo = left0 & RANK_8;
        let right = right0 & !right_promo;
        let left = left0 & !left_promo;
        step_moves(single, 8, true, WHITE) + double_push_moves(double, true, WHITE) + step_moves(
            left,
            9,
            true,
            WHITE,
        ) + step_moves(right, 7, true, WHITE) + en_passant_moves(v, WHITE, pawns)
            + promotion_moves(left_promo, 9, true, WHITE) + promotion_moves(right_promo, 7, true, WHITE)
            + promotion_moves(promo, 8, true, WHITE)
    } else {
        let pieces = v.black;
        let opp = v.white;
        let pawns = mask_of(v, PAWN, BLACK);
        let push = ((pawns & !RANK_1) >> 8u64) & !(pieces | opp);
        let promo = push & RANK_1;
        let single = push & !promo;
        let double = ((single & RANK_6) >> 8u64) & !(pieces | opp);
        let right0 = ((pawns & !FILE_0) >> 9u64) & opp;
        let left0 = ((pawns & !FILE_7) >> 7u64) & opp;
        let right_promo = right0 & RANK_1;
        let left_promo = left0 & RANK_1;
        let right = right0 & !right_promo;
        let left = left0 & !left_promo;
        step_moves(single, 8, false, BLACK) + double_push_moves(double, false, BLACK) + step_moves(
            left,
            7,
            false,
            BLACK,
        ) + step_moves(right, 9, false, BLACK) + en_passant_moves(v, BLACK, pawns)
            + promotion_moves(left_promo, 7, false, BLACK) + promotion_moves(right_promo, 9, false, BLACK)
            + promotion_moves(promo, 8, false, BLACK)
    }
}

/// The squares a knight on `from` reaches, without squares of `own`.
pub open spec fn knight_targets(from: u64, own: u64) -> u64 {
    ((((((((0u64 | ((from & !FILE_0) >> 17u64)) | ((from & !FILE_7) >> 15u64)) | ((from & !(FILE_1
        | FILE_0)) >> 10u64)) | ((from & !(FILE_7 | FILE_6)) >> 6u64)) | ((from & !FILE_0) << 15u64))
        | ((from & !FILE_7) << 17u64)) | ((from & !(FILE_1 | FILE_0)) << 6u64)) | ((from & !(FILE_7
        | FILE_6)) << 10u64)) & !own
}

pub open spec fn knight_from(v: BoardView, color: u8) -> spec_fn(u64) -> Seq<(u16, MoveType)> {
    |from: u64| target_moves(from, knight_targets(from, own_occupancy(v, color)), KNIGHT, color)
}

/// The knight moves of `color`, knight by knight from the lowest square.
pub open spec fn knight_moves_spec(v: BoardView, color: u8) -> Seq<(u16, MoveType)> {
    expand(mask_of(v, KNIGHT, color), knight_from(v, color))
}

/// The squares swept from `from` along one direction, steps `i` to 7, added
/// to `acc`: each step of `step` squares adds its square unless it holds a
/// piece of `own`, and the sweep stops after a square in `stop`.
pub open spec fn ray_fill(acc: u64, from: u64, step: u64, left: bool, stop: u64, own: u64, i: u64) -> u64
    decreases 8 - i,
{
    if i >= 8 {
        acc
    } else {
        let dest = if left {
            from << ((step * i) as u64)
        } else {
            from >> ((step * i) as u64)
        };
        let acc2 = acc | (dest & !own);
        if dest & stop != 0 {
            acc2
        } else {
            ray_fill(acc2, from, step, left, stop, own, (i + 1) as u64)
        }
    }
}

/// The diagonal squares a bishop (or queen) on `from` reaches.
pub open spec fn bishop_targets(from: u64, own: u64, all: u64) -> u64 {
    let m1 = if from & (RANK_8 | FILE_7) == 0 {
        ray_fill(0, from, 9, true, (RANK_8 | FILE_7) | all, own, 1)
    } else {
        0
    };
    let m2 = if from & (RANK_1 | FILE_7) == 0 {
        ray_fill(m1, from, 7, false, (RANK_1 | FILE_7) | all, own, 1)
    } else {
        m1
    };
    let m3 = if from & (RANK_8 | FILE_0) == 0 {
        ray_fill(m2, from, 7, true, (FILE_0 | RANK_8) | all, own, 1)
    } else {
        m2
    };
    let m4 = if from & (RANK_1 | FILE_0) == 0 {
        ray_fill(m3, from, 9, false, (FILE_0 | RANK_1) | all, own, 1)
    } else {
        m3
    };
    m4 & !own
}

/// The straight-line squares a rook (or queen) on `from` reaches.
pub open spec fn rook_targets(from: u64, own: u64, all: u64) -> u64 {
    let m1 = if from & RANK_8 == 0 {
        ray_fill(0, from, 8, true, RANK_8 | all, own, 1)
    } else {
        0
    };
    let m2 = if from & RANK_1 == 0 {
        ray_fill(m1, from, 8, false, RANK_1 | all, own, 1)
    } else {
        m1
    };
    let m3 = if from & FILE_7 == 0 {
        ray_fill(m2, from, 1, true, FILE_7 | all, own, 1)
    } else {
        m2
    };
    let m4 = if from & FILE_0 == 0 {
        ray_fill(m3, from, 1, false, FILE_0 | all, own, 1)
    } else {
        m3
    };
    m4 & !own
}

/// The piece type recorded on sliding moves: a queen when the slider mask is
/// given, the own piece type otherwise.
pub open spec fn slider_piece(queen_mask: Option<u64>, own_type: u8) -> u8 {
    if queen_mask is Some {
        QUEEN
    } else {
        own_type
    }
}

pub open spec fn bishop_from(v: BoardView, color: u8, piece: u8) -> spec_fn(u64) -> Seq<(u16, MoveType)> {
    |from: u64|
        target_moves(
            from,
            bishop_targets(from, own_occupancy(v, color), v.white | v.black),
            piece,
            color,
        )
}

pub open spec fn rook_from(v: BoardView, color: u8, piece: u8) -> spec_fn(u64) -> Seq<(u16, MoveType)> {
    |from: u64|
        target_moves(from, rook_targets(from, own_occupancy(v, color), v.white | v.black), piece, color)
}

/// The diagonal moves of the bishops of `color`, or of the pieces of
/// `queen_mask` when it is given.
pub open spec fn bishop_moves_spec(v: BoardView, color: u8, queen_mask: Option<u64>) -> Seq<(u16, MoveType)> {
    let sliders = match queen_mask {
        Some(q) => q,
        None => mask_of(v, BISHOP, color),
    };
    expand(sliders, bishop_from(v, color, slider_piece(queen_mask, BISHOP)))
}

/// The straight moves of the rooks of `color`, or of the pieces of
/// `queen_mask` when it is given.
pub open spec fn rook_moves_spec(v: BoardView, color: u8, queen_mask: Option<u64>) -> Seq<(u16, MoveType)> {
    let sliders = match queen_mask {
        Some(q) => q,
        None => mask_of(v, ROOK, color),
    };
    expand(sliders, rook_from(v, color, slider_piece(queen_mask, ROOK)))
}

/// The queen moves of `color`: diagonal moves, then straight moves.
pub open spec fn queen_moves_spec(v: BoardView, color: u8) -> Seq<(u16, MoveType)> {
    bishop_moves_spec(v, color, Some(mask_of(v, QUEEN, color))) + rook_moves_spec(
        v,
        color,
        Some(mask_of(v, QUEEN, color)),
    )
}

/// The squares a king on `kings` steps to on the lower-index side, as the
/// generator computes them.
pub open spec fn king_reach_low(kings: u64) -> u64 {
    ((((kings & !FILE_0) >> 1u64) | ((kings & !(FILE_0 | RANK_8)) >> 9u64)) | ((kings & !(FILE_7
        | RANK_8)) >> 7u64)) | ((kings & !RANK_1) >> 8u64) | ((kings & !RANK_8) << 8u64)
}

/// The squares a king on `kings` steps to on the higher-index side, as the
/// generator computes them.
pub open spec fn king_reach_high(kings: u64) -> u64 {
    ((((kings & !FILE_7) << 1u64) | ((kings & !(FILE_0 | RANK_8)) << 7u64)) | ((kings & !(FILE_7
        | RANK_8)) << 9u64)) | ((kings & !RANK_1) >> 8u64) | ((kings & !RANK_8) << 8u64)
}

/// The squares adjacent to the squares of `kings`, as the generator
/// computes them.
pub open spec fn king_reach(kings: u64) -> u64 {
    (0u64 | king_reach_low(kings)) | king_reach_high(kings)
}

/// The most moves a side can have, however its bitboards are filled.
pub const MAX_MOVES: u64 = 30000u64;

proof fn lemma_targets_len(from: u64, targets: u64, piece: u8, color: u8)
    ensures
        target_moves(from, targets, piece, color).len() <= 64,
{
    let f = |to: u64| seq![normal(from, to, piece, color)];
    assert forall|sq: u64| #[trigger] f(sq).len() <= 1 by {}
    crate::bits::lemma_expand_len(targets, f, 1);
}

proof fn lemma_pawn_moves_len(v: BoardView, color: u8)
    ensures
        pawn_moves_spec(v, color).len() <= 1100,
{
    assert forall|t: u64, shift: u64, up: bool, c: u8| #[trigger] step_moves(t, shift, up, c).len() <= 64 by {
        let f = |to: u64| seq![normal(pawn_origin(to, shift, up), to, PAWN, c)];
        assert forall|sq: u64| #[trigger] f(sq).len() <= 1 by {}
        crate::bits::lemma_expand_len(t, f, 1);
    }
    assert forall|t: u64, up: bool, c: u8| #[trigger] double_push_moves(t, up, c).len() <= 64 by {
        let f = |to: u64| seq![(encode(pawn_origin(to, 16, up), to, PAWN, c), MoveType::DoublePawnPush)];
        assert forall|sq: u64| #[trigger] f(sq).len() <= 1 by {}
        crate::bits::lemma_expand_len(t, f, 1);
    }
    assert forall|t: u64, shift: u64, up: bool, c: u8| #[trigger] promotion_moves(t, shift, up, c).len() <= 256 by {
        let f = |to: u64| promotions_to(pawn_origin(to, shift, up), to, c);
        assert forall|sq: u64| #[trigger] f(sq).len() <= 4 by {}
        crate::bits::lemma_expand_len(t, f, 4);
    }
    assert(en_passant_moves(v, color, mask_of(v, PAWN, color)).len() <= 2);
}

proof fn lemma_slider_len(v: BoardView, color: u8, queen_mask: Option<u64>)
    ensures
        bishop_moves_spec(v, color, queen_mask).len() <= 4096,
        rook_moves_spec(v, color, queen_mask).len() <= 4096,
{
    let pb = slider_piece(queen_mask, BISHOP);
    let pr = slider_piece(queen_mask, ROOK);
    let sliders_b = match queen_mask {
        Some(q) => q,
        None => mask_of(v, BISHOP, color),
    };
    let sliders_r = match queen_mask {
        Some(q) => q,
        None => mask_of(v, ROOK, color),
    };
    assert forall|sq: u64| #[trigger] bishop_from(v, color, pb)(sq).len() <= 64 by {
        lemma_targets_len(sq, bishop_targets(sq, own_occupancy(v, color), v.white | v.black), pb, color);
    }
    assert forall|sq: u64| #[trigger] rook_from(v, color, pr)(sq).len() <= 64 by {
        lemma_targets_len(sq, rook_targets(sq, own_occupancy(v, color), v.white | v.black), pr, color);
    }
    crate::bits::lemma_expand_len(sliders_b, bishop_from(v, color, pb), 64);
    crate::bits::lemma_expand_len(sliders_r, rook_from(v, color, pr), 64);
}

/// However its bitboards are filled, a side has at most `MAX_MOVES`
/// pseudo-legal moves, and so at most as many legal ones.
pub proof fn lemma_moves_bounded(v: BoardView, color: u8)
    ensures
        pseudo_moves(v, color).len() <= MAX_MOVES,
        legal_moves(v, color).len() <= MAX_MOVES,
{
    lemma_pawn_moves_len(v, color);
    assert forall|sq: u64| #[trigger] knight_from(v, color)(sq).len() <= 64 by {
        lemma_targets_len(sq, knight_targets(sq, own_occupancy(v, color)), KNIGHT, color);
    }
    crate::bits::lemma_expand_len(mask_of(v, KNIGHT, color), knight_from(v, color), 64);
    lemma_slider_len(v, color, None);
    lemma_slider_len(v, color, Some(mask_of(v, QUEEN, color)));
    assert forall|sq: u64| #[trigger] king_from(v, color)(sq).len() <= 64 by {
        let t = king_reach(sq) & !own_occupancy(v, color);
        assert forall|to: u64| #[trigger] king_step(v, color, sq)(to).len() <= 1 by {}
        crate::bits::lemma_expand_len(t, king_step(v, color, sq), 1);
    }
    crate::bits::lemma_expand_len(mask_of(v, KING, color), king_from(v, color), 64);
    assert(castling_moves(v, color).len() <= 2);
    pseudo_moves(v, color).lemma_filter_len(legality(v, color));
}

/// Knight and king moves do not wrap around the board's edges: from the
/// two files at one edge a knight reaches neither of the two files at the
/// other, and from the file at one edge a king does not reach the file at
/// the other.
pub proof fn lemma_steps_do_not_wrap(f: u64, own: u64)
    ensures
        f & !(FILE_0 | FILE_1) == 0 ==> knight_targets(f, own) & (FILE_6 | FILE_7) == 0,
        f & !(FILE_6 | FILE_7) == 0 ==> knight_targets(f, own) & (FILE_0 | FILE_1) == 0,
        f & !FILE_0 == 0 ==> king_reach(f) & FILE_7 == 0,
        f & !FILE_7 == 0 ==> king_reach(f) & FILE_0 == 0,
{
    assert((f & !(0x0101_0101_0101_0101u64 | 0x0202_0202_0202_0202u64) == 0 ==> (((((((((0u64 | ((f &
        !0x0101_0101_0101_0101u64) >> 17u64)) | ((f & !0x8080_8080_8080_8080u64) >> 15u64)) | ((f &
        !(0x0202_0202_0202_0202u64 | 0x0101_0101_0101_0101u64)) >> 10u64)) | ((f &
        !(0x8080_8080_8080_8080u64 | 0x4040_4040_4040_4040u64)) >> 6u64)) | ((f & !0x0101_0101_0101_0101u64)
        << 15u64)) | ((f & !0x8080_8080_8080_8080u64) << 17u64)) | ((f & !(0x0202_0202_0202_0202u64 |
        0x0101_0101_0101_0101u64)) << 6u64)) | ((f & !(0x8080_8080_8080_8080u64 | 0x4040_4040_4040_4040u64))
        << 10u64)) & !own) & (0x4040_4040_4040_4040u64 | 0x8080_8080_8080_8080u64) == 0) && (f &
        !(0x4040_4040_4040_4040u64 | 0x8080_8080_8080_8080u64) == 0 ==> (((((((((0u64 | ((f &
        !0x0101_0101_0101_0101u64) >> 17u64)) | ((f & !0x8080_8080_8080_8080u64) >> 15u64)) | ((f &
        !(0x0202_0202_0202_0202u64 | 0x0101_0101_0101_0101u64)) >> 10u64)) | ((f &
        !(0x8080_8080_8080_8080u64 | 0x4040_4040_4040_4040u64)) >> 6u64)) | ((f & !0x0101_0101_0101_0101u64)
        << 15u64)) | ((f & !0x8080_8080_8080_8080u64) << 17u64)) | ((f & !(0x0202_0202_0202_0202u64 |
        0x0101_0101_0101_0101u64)) << 6u64)) | ((f & !(0x8080_8080_8080_8080u64 | 0x4040_4040_4040_4040u64))
        << 10u64)) & !own) & (0x0101_0101_0101_0101u64 | 0x0202_0202_0202_0202u64) == 0) && (f &
        !0x0101_0101_0101_0101u64 == 0 ==> (((0u64 | (((((f & !0x0101_0101_0101_0101u64) >> 1u64) | ((f &
        !(0x0101_0101_0101_0101u64 | 0xFF00_0000_0000_0000u64)) >> 9u64)) | ((f & !(0x8080_8080_8080_8080u64
        | 0xFF00_0000_0000_0000u64)) >> 7u64)) | ((f & !0x0000_0000_0000_00FFu64) >> 8u64) | ((f &
        !0xFF00_0000_0000_0000u64) << 8u64))) | (((((f & !0x8080_8080_8080_8080u64) << 1u64) | ((f &
        !(0x0101_0101_0101_0101u64 | 0xFF00_0000_0000_0000u64)) << 7u64)) | ((f & !(0x8080_8080_8080_8080u64
        | 0xFF00_0000_0000_0000u64)) << 9u64)) | ((f & !0x0000_0000_0000_00FFu64) >> 8u64) | ((f &
        !0xFF00_0000_0000_0000u64) << 8u64)))) & 0x8080_8080_8080_8080u64 == 0) && (f &
        !0x8080_8080_8080_8080u64 == 0 ==> (((0u64 | (((((f & !0x0101_0101_0101_0101u64) >> 1u64) | ((f &
        !(0x0101_0101_0101_0101u64 | 0xFF00_0000_0000_0000u64)) >> 9u64)) | ((f & !(0x8080_8080_8080_8080u64
        | 0xFF00_0000_0000_0000u64)) >> 7u64)) | ((f & !0x0000_0000_0000_00FFu64) >> 8u64) | ((f &
        !0xFF00_0000_0000_0000u64) << 8u64))) | (((((f & !0x8080_8080_8080_8080u64) << 1u64) | ((f &
        !(0x0101_0101_0101_0101u64 | 0xFF00_0000_0000_0000u64)) << 7u64)) | ((f & !(0x8080_8080_8080_8080u64
        | 0xFF00_0000_0000_0000u64)) << 9u64)) | ((f & !0x0000_0000_0000_00FFu64) >> 8u64) | ((f &
        !0xFF00_0000_0000_0000u64) << 8u64)))) & 0x0101_0101_0101_0101u64 == 0)) by (bit_vector);
}

/// The moves that count as attacks of `color`: those of its pawns, knights,
/// bishops, rooks and queens.
pub open spec fn attack_moves(v: BoardView, color: u8) -> Seq<(u16, MoveType)> {
    pawn_moves_spec(v, color) + knight_moves_spec(v, color) + bishop_moves_spec(v, color, None)
        + rook_moves_spec(v, color, None) + queen_moves_spec(v, color)
}

/// Whether the destination of a move meets `square`.
pub open spec fn hits(mv: (u16, MoveType), square: u64) -> bool {
    (1u64 << to_index_of(mv.0)) & square != 0
}

/// Whether `color` attacks a square of `square`: some pawn, knight, bishop,
/// rook or queen move of `color` ends on it (pawn pushes included), or a
/// king of `color` stands next to it and it holds no piece of `color`.
pub open spec fn attacked(v: BoardView, square: u64, color: u8) -> bool {
    (exists|i: int| 0 <= i < attack_moves(v, color).len() && #[trigger] hits(attack_moves(v, color)[i], square))
        || (king_reach(mask_of(v, KING, color)) & !own_occupancy(v, color)) & square != 0
}

/// A king step from `from` to `to` is kept when, after it, `to` is not attacked.
pub open spec fn king_step_ok(v: BoardView, color: u8, from: u64, to: u64) -> bool {
    !attacked(move_piece_view(v, KING, color, normal(from, to, KING, color)), to, opponent(color))
}

pub open spec fn king_step(v: BoardView, color: u8, from: u64) -> spec_fn(u64) -> Seq<(u16, MoveType)> {
    |to: u64|
        if king_step_ok(v, color, from, to) {
            seq![normal(from, to, KING, color)]
        } else {
            Seq::empty()
        }
}

pub open spec fn king_step_moves(v: BoardView, color: u8, from: u64, targets: u64) -> Seq<(u16, MoveType)> {
    expand(targets, king_step(v, color, from))
}

pub open spec fn king_from(v: BoardView, color: u8) -> spec_fn(u64) -> Seq<(u16, MoveType)> {
    |from: u64|
        king_step_moves(v, color, from, king_reach(from) & !own_occupancy(v, color))
}

/// A castling move, as a view.
pub open spec fn castle(from: u64, to: u64, color: u8, rook_from: u64, rook_to: u64) -> (u16, MoveType) {
    (encode(from, to, KING, color), MoveType::Castling { rook_from, rook_to })
}

/// `mv` when it is allowed and, once played, neither `sq1` nor `sq2` is attacked.
pub open spec fn castle_if(v: BoardView, color: u8, allowed: bool, mv: (u16, MoveType), sq1: u64, sq2: u64) -> Seq<(u16, MoveType)> {
    if allowed && !attacked(move_piece_view(v, KING, color, mv), sq1, opponent(color)) && !attacked(
        move_piece_view(v, KING, color, mv),
        sq2,
        opponent(color),
    ) {
        seq![mv]
    } else {
        Seq::empty()
    }
}

/// The castling moves of `color`: kingside, then queenside, each when the
/// right is held, the squares between king and rook are empty, and the
/// squares the king and rook land on are not attacked once castled.
pub open spec fn castling_moves(v: BoardView, color: u8) -> Seq<(u16, MoveType)> {
    let occupied = v.white | v.black;
    let rights = v.castling;
    if color == WHITE {
        castle_if(
            v,
            WHITE,
            rights & WHITE_KINGSIDE_CASTLE != 0 && occupied & ((1u64 << 1u64) | (1u64 << 2u64)) == 0,
            castle(1u64 << 3u64, 1u64 << 1u64, WHITE, 1u64, 1u64 << 2u64),
            1u64 << 2u64,
            1u64 << 1u64,
        ) + castle_if(
            v,
            WHITE,
            rights & WHITE_QUEENSIDE_CASTLE != 0 && occupied & ((1u64 << 4u64) | (1u64 << 5u64) | (1u64
                << 6u64)) == 0,
            castle(1u64 << 3u64, 1u64 << 5u64, WHITE, 1u64 << 7u64, 1u64 << 4u64),
            1u64 << 4u64,
            1u64 << 5u64,
        )
    } else {
        castle_if(
            v,
            BLACK,
            rights & BLACK_KINGSIDE_CASTLE != 0 && occupied & ((1u64 << 57u64) | (1u64 << 58u64)) == 0,
            castle(1u64 << 59u64, 1u64 << 57u64, BLACK, 1u64 << 56u64, 1u64 << 58u64),
            1u64 << 58u64,
            1u64 << 57u64,
        ) + castle_if(
            v,
            BLACK,
            rights & BLACK_QUEENSIDE_CASTLE != 0 && occupied & ((1u64 << 60u64) | (1u64 << 61u64) | (
            1u64 << 62u64)) == 0,
            castle(1u64 << 59u64, 1u64 << 61u64, BLACK, 1u64 << 63u64, 1u64 << 60u64),
            1u64 << 60u64,
            1u64 << 61u64,
        )
    }
}

/// The king moves of `color`: the steps that do not land on an attacked
/// square, king by king, then the castling moves.
pub open spec fn king_moves_spec(v: BoardView, color: u8) -> Seq<(u16, MoveType)> {
    expand(mask_of(v, KING, color), king_from(v, color)) + castling_moves(v, color)
}

/// All pseudo-legal moves of `color`, in generation order.
pub open spec fn pseudo_moves(v: BoardView, color: u8) -> Seq<(u16, MoveType)> {
    pawn_moves_spec(v, color) + knight_moves_spec(v, color) + bishop_moves_spec(v, color, None)
        + rook_moves_spec(v, color, None) + queen_moves_spec(v, color) + king_moves_spec(v, color)
}

/// The piece type a move records.
pub open spec fn mover_piece(mv: (u16, MoveType)) -> u8 {
    piece_type_of(mv.0) as u8
}

/// The color a move records.
pub open spec fn mover_color(mv: (u16, MoveType)) -> u8 {
    if color_bit_of(mv.0) == 1 {
        WHITE
    } else {
        BLACK
    }
}

/// The board after a move, played with the piece type and color it records.
pub open spec fn after_move(v: BoardView, mv: (u16, MoveType)) -> BoardView {
    move_piece_view(v, mover_piece(mv), mover_color(mv), mv)
}

/// A move of `color` is legal when, once played, no king of `color` stands
/// on an attacked square.
pub open spec fn is_legal(v: BoardView, color: u8, mv: (u16, MoveType)) -> bool {
    !attacked(after_move(v, mv), mask_of(after_move(v, mv), KING, color), opponent(color))
}

pub open spec fn legality(v: BoardView, color: u8) -> spec_fn((u16, MoveType)) -> bool {
    |mv: (u16, MoveType)| is_legal(v, color, mv)
}

/// The legal moves of `color`, in generation order.
pub open spec fn legal_moves(v: BoardView, color: u8) -> Seq<(u16, MoveType)> {
    pseudo_moves(v, color).filter(legality(v, color))
}

/// A move that records a piece type that has a bitboard, and, for a
/// promotion, a promoted piece type that has one.
pub open spec fn playable(mv: (u16, MoveType)) -> bool {
    &&& is_piece_type(piece_type_of(mv.0) as u8)
    &&& (mv.1 matches MoveType::Promotion { promoted_piece } ==> is_piece_type(promoted_piece))
}

pub open spec fn playable_pred() -> spec_fn((u16, MoveType)) -> bool {
    |mv: (u16, MoveType)| playable(mv)
}

proof fn lemma_normal_playable(from: u64, to: u64, piece: u8, color: u8)
    requires
        to != 0,
        is_piece_type(piece),
        is_color(color),
    ensures
        playable(normal(from, to, piece, color)),
{
    lemma_encode_piece_color(from, to, piece, color);
}

proof fn lemma_target_moves_playable(from: u64, targets: u64, piece: u8, color: u8)
    requires
        is_piece_type(piece),
        is_color(color),
    ensures
        forall|k: int|
            0 <= k < target_moves(from, targets, piece, color).len() ==> playable(
                #[trigger] target_moves(from, targets, piece, color)[k],
            ),
{
    let f = |to: u64| seq![normal(from, to, piece, color)];
    assert forall|sq: u64, k: int| sq != 0 && 0 <= k < f(sq).len() implies playable_pred()(
        #[trigger] f(sq)[k],
    ) by {
        lemma_normal_playable(from, sq, piece, color);
    }
    crate::bits::lemma_expand_all(targets, f, playable_pred());
}

/// Every move of a list is playable.
pub open spec fn all_playable(s: Seq<(u16, MoveType)>) -> bool {
    forall|k: int| 0 <= k < s.len() ==> playable(#[trigger] s[k])
}

proof fn lemma_concat_playable(a: Seq<(u16, MoveType)>, b: Seq<(u16, MoveType)>)
    requires
        all_playable(a),
        all_playable(b),
    ensures
        all_playable(a + b),
{
    assert forall|k: int| 0 <= k < (a + b).len() implies playable(#[trigger] (a + b)[k]) by {
        if k < a.len() {
            assert((a + b)[k] == a[k]);
        } else {
            assert((a + b)[k] == b[k - a.len()]);
        }
    }
}

proof fn lemma_step_moves_playable(targets: u64, shift: u64, up: bool, color: u8)
    requires
        is_color(color),
    ensures
        all_playable(step_moves(targets, shift, up, color)),
{
    let f = |to: u64| seq![normal(pawn_origin(to, shift, up), to, PAWN, color)];
    assert forall|sq: u64, j: int| sq != 0 && 0 <= j < f(sq).len() implies playable_pred()(
        #[trigger] f(sq)[j],
    ) by {
        lemma_normal_playable(pawn_origin(sq, shift, up), sq, PAWN, color);
    }
    crate::bits::lemma_expand_all(targets, f, playable_pred());
}

proof fn lemma_double_push_moves_playable(targets: u64, up: bool, color: u8)
    requires
        is_color(color),
    ensures
        all_playable(double_push_moves(targets, up, color)),
{
    let f = |to: u64| seq![(encode(pawn_origin(to, 16, up), to, PAWN, color), MoveType::DoublePawnPush)];
    assert forall|sq: u64, j: int| sq != 0 && 0 <= j < f(sq).len() implies playable_pred()(
        #[trigger] f(sq)[j],
    ) by {
        lemma_encode_piece_color(pawn_origin(sq, 16, up), sq, PAWN, color);
    }
    crate::bits::lemma_expand_all(targets, f, playable_pred());
}

proof fn lemma_promotion_moves_playable(targets: u64, shift: u64, up: bool, color: u8)
    requires
        is_color(color),
    ensures
        all_playable(promotion_moves(targets, shift, up, color)),
{
    let f = |to: u64| promotions_to(pawn_origin(to, shift, up), to, color);
    assert forall|sq: u64, j: int| sq != 0 && 0 <= j < f(sq).len() implies playable_pred()(
        #[trigger] f(sq)[j],
    ) by {
        lemma_encode_piece_color(pawn_origin(sq, shift, up), sq, PAWN, color);
    }
    crate::bits::lemma_expand_all(targets, f, playable_pred());
}

proof fn lemma_en_passant_playable(v: BoardView, color: u8, pawns: u64)
    requires
        is_color(color),
        en_passant_in_range(v, color),
    ensures
        all_playable(en_passant_moves(v, color, pawns)),
{
    if v.en_passant != 0 {
        let shift: u64 = if color == WHITE {
            (v.en_passant - 1 + 40) as u64
        } else {
            (v.en_passant - 1 + 16) as u64
        };
        crate::bits::lemma_single_bit(shift, 0);
        let to = 1u64 << shift;
        lemma_encode_piece_color(((to >> 8u64) & !FILE_0) >> 1u64, to, PAWN, color);
        lemma_encode_piece_color(((to >> 8u64) & !FILE_7) << 1u64, to, PAWN, color);
        lemma_encode_piece_color(((to << 8u64) & !FILE_7) << 1u64, to, PAWN, color);
        lemma_encode_piece_color(((to << 8u64) & !FILE_0) >> 1u64, to, PAWN, color);
    }
}

proof fn lemma_pawn_moves_playable(v: BoardView, color: u8)
    requires
        is_color(color),
        en_passant_in_range(v, color),
    ensures
        all_playable(pawn_moves_spec(v, color)),
{
    assert forall|targets: u64, shift: u64, up: bool| #[trigger] step_moves(targets, shift, up, color)
        == step_moves(targets, shift, up, color) implies all_playable(step_moves(targets, shift, up, color)) by {
        lemma_step_moves_playable(targets, shift, up, color);
    }
    assert forall|targets: u64, shift: u64, up: bool| #[trigger] promotion_moves(targets, shift, up, color)
        == promotion_moves(targets, shift, up, color) implies all_playable(promotion_moves(targets, shift, up, color)) by {
        lemma_promotion_moves_playable(targets, shift, up, color);
    }
    assert forall|targets: u64, up: bool| #[trigger] double_push_moves(targets, up, color)
        == double_push_moves(targets, up, color) implies all_playable(double_push_moves(targets, up, color)) by {
        lemma_double_push_moves_playable(targets, up, color);
    }
    let pawns = mask_of(v, PAWN, color);
    lemma_en_passant_playable(v, color, pawns);
    assert forall|a: Seq<(u16, MoveType)>, b: Seq<(u16, MoveType)>| all_playable(a) && all_playable(b)
        implies #[trigger] all_playable(a + b) by {
        lemma_concat_playable(a, b);
    }
}

proof fn lemma_sliders_playable(
    color: u8,
    f: spec_fn(u64) -> Seq<(u16, MoveType)>,
    targets: spec_fn(u64) -> u64,
    mask: u64,
    piece: u8,
)
    requires
        is_color(color),
        is_piece_type(piece),
        forall|from: u64| #[trigger] f(from) == target_moves(from, targets(from), piece, color),
    ensures
        all_playable(expand(mask, f)),
{
    assert forall|sq: u64, j: int| sq != 0 && 0 <= j < f(sq).len() implies playable_pred()(
        #[trigger] f(sq)[j],
    ) by {
        lemma_target_moves_playable(sq, targets(sq), piece, color);
    }
    crate::bits::lemma_expand_all(mask, f, playable_pred());
}

proof fn lemma_king_moves_playable(v: BoardView, color: u8)
    requires
        is_color(color),
    ensures
        all_playable(king_moves_spec(v, color)),
{
    let f = king_from(v, color);
    assert forall|sq: u64, j: int| sq != 0 && 0 <= j < f(sq).len() implies playable_pred()(
        #[trigger] f(sq)[j],
    ) by {
        let g = king_step(v, color, sq);
        assert forall|to: u64, i: int| to != 0 && 0 <= i < g(to).len() implies playable_pred()(
            #[trigger] g(to)[i],
        ) by {
            lemma_normal_playable(sq, to, KING, color);
        }
        crate::bits::lemma_expand_all(king_reach(sq) & !own_occupancy(v, color), g, playable_pred());
    }
    crate::bits::lemma_expand_all(mask_of(v, KING, color), f, playable_pred());
    crate::bits::lemma_single_bit(1, 0);
    crate::bits::lemma_single_bit(5, 0);
    crate::bits::lemma_single_bit(57, 0);
    crate::bits::lemma_single_bit(61, 0);
    lemma_encode_piece_color(1u64 << 3u64, 1u64 << 1u64, KING, WHITE);
    lemma_encode_piece_color(1u64 << 3u64, 1u64 << 5u64, KING, WHITE);
    lemma_encode_piece_color(1u64 << 59u64, 1u64 << 57u64, KING, BLACK);
    lemma_encode_piece_color(1u64 << 59u64, 1u64 << 61u64, KING, BLACK);
    lemma_concat_playable(expand(mask_of(v, KING, color), f), castling_moves(v, color));
}

/// Every pseudo-legal move records a piece type with a bitboard (and, for a
/// promotion, a promoted piece type with one).
pub proof fn lemma_pseudo_moves_playable(v: BoardView, color: u8)
    requires
        is_color(color),
        en_passant_in_range(v, color),
    ensures
        all_playable(pseudo_moves(v, color)),
{
    lemma_pawn_moves_playable(v, color);
    let own = own_occupancy(v, color);
    let all = v.white | v.black;
    lemma_sliders_playable(color, knight_from(v, color), |from: u64| knight_targets(from, own), mask_of(v, KNIGHT, color), KNIGHT);
    lemma_sliders_playable(color, bishop_from(v, color, BISHOP), |from: u64| bishop_targets(from, own, all), mask_of(v, BISHOP, color), BISHOP);
    lemma_sliders_playable(color, rook_from(v, color, ROOK), |from: u64| rook_targets(from, own, all), mask_of(v, ROOK, color), ROOK);
    lemma_sliders_playable(color, bishop_from(v, color, QUEEN), |from: u64| bishop_targets(from, own, all), mask_of(v, QUEEN, color), QUEEN);
    lemma_sliders_playable(color, rook_from(v, color, QUEEN), |from: u64| rook_targets(from, own, all), mask_of(v, QUEEN, color), QUEEN);
    lemma_king_moves_playable(v, color);
    let p1 = pawn_moves_spec(v, color);
    let p2 = knight_moves_spec(v, color);
    let p3 = bishop_moves_spec(v, color, None);
    let p4 = rook_moves_spec(v, color, None);
    let p5 = queen_moves_spec(v, color);
    let p6 = king_moves_spec(v, color);
    lemma_concat_playable(bishop_moves_spec(v, color, Some(mask_of(v, QUEEN, color))), rook_moves_spec(v, color, Some(mask_of(v, QUEEN, color))));
    lemma_concat_playable(p1, p2);
    lemma_concat_playable(p1 + p2, p3);
    lemma_concat_playable(p1 + p2 + p3, p4);
    lemma_concat_playable(p1 + p2 + p3 + p4, p5);
    lemma_concat_playable(p1 + p2 + p3 + p4 + p5, p6);
}

/// A legal move records a piece type with a bitboard (and, for a promotion,
/// a promoted piece type with one).
pub proof fn lemma_legal_playable(v: BoardView, color: u8, mv: (u16, MoveType))
    requires
        is_color(color),
        en_passant_in_range(v, color),
        legal_moves(v, color).contains(mv),
    ensures
        playable(mv),
{
    lemma_pseudo_moves_playable(v, color);
    pseudo_moves(v, color).lemma_filter_contains_rev(legality(v, color), mv);
    let k = choose|k: int| 0 <= k < pseudo_moves(v, color).len() && pseudo_moves(v, color)[k] == mv;
    assert(playable(pseudo_moves(v, color)[k]));
}

/// A generated move never leaves the mover's king on an attacked square.
pub proof fn lemma_legal_keeps_king_safe(v: BoardView, color: u8, mv: (u16, MoveType))
    requires
        legal_moves(v, color).contains(mv),
    ensures
        !attacked(after_move(v, mv), mask_of(after_move(v, mv), KING, color), opponent(color)),
{
    pseudo_moves(v, color).lemma_filter_contains_rev(legality(v, color), mv);
}

/// The opposing color.
fn other_color(color: u8) -> (r: u8)
    ensures
        r == crate::constants::opponent(color),
{
    if color == WHITE {
        BLACK
    } else {
        WHITE
    }
}

/// Appends normal moves from `from` to each square of `targets`, lowest first.
fn push_targets(moves: &mut Vec<Move>, from: u64, targets: u64, piece: u8, color: u8)
    ensures
        views(final(moves)@) == views(old(moves)@) + target_moves(from, targets, piece, color),
{
    let mut m = targets;
    while m != 0
        invariant
            views(moves@) + target_moves(from, m, piece, color) == views(old(moves)@) + target_moves(
                from,
                targets,
                piece,
                color,
            ),
        decreases m,
    {
        proof {
            lemma_low_index(m);
        }
        let to = 1u64 << m.trailing_zeros();
        let ghost before = moves@;
        moves.push(Move::new(from, to, piece, color));
        proof {
            assert(views(moves@) =~= views(before).push(normal(from, to, piece, color)));
            assert(target_moves(from, m, piece, color) =~= seq![normal(from, to, piece, color)]
                + target_moves(from, without_low(m), piece, color));
            assert(views(moves@) + target_moves(from, without_low(m), piece, color) =~= views(before)
                + target_moves(from, m, piece, color));
        }
        m = m & (m - 1);
    }
}

/// Appends normal pawn moves reaching each square of `targets`.
fn push_pawn_steps(moves: &mut Vec<Move>, targets: u64, shift: u64, up: bool, color: u8)
    requires
        shift < 64,
    ensures
        views(final(moves)@) == views(old(moves)@) + step_moves(targets, shift, up, color),
{
    let mut m = targets;
    while m != 0
        invariant
            shift < 64,
            views(moves@) + step_moves(m, shift, up, color) == views(old(moves)@) + step_moves(
                targets,
                shift,
                up,
                color,
            ),
        decreases m,
    {
        proof {
            lemma_low_index(m);
        }
        let to = 1u64 << m.trailing_zeros();
        let from = if up {
            to >> shift
        } else {
            to << shift
        };
        let ghost before = moves@;
        moves.push(Move::new(from, to, PAWN, color));
        proof {
            assert(views(moves@) =~= views(before).push(normal(from, to, PAWN, color)));
            assert(step_moves(m, shift, up, color) =~= seq![normal(from, to, PAWN, color)]
                + step_moves(without_low(m), shift, up, color));
            assert(views(moves@) + step_moves(without_low(m), shift, up, color) =~= views(before)
                + step_moves(m, shift, up, color));
        }
        m = m & (m - 1);
    }
}

/// Appends a two-square push for each square of `targets`.
fn push_double_pushes(moves: &mut Vec<Move>, targets: u64, up: bool, color: u8)
    ensures
        views(final(moves)@) == views(old(moves)@) + double_push_moves(targets, up, color),
{
    let mut m = targets;
    while m != 0
        invariant
            views(moves@) + double_push_moves(m, up, color) == views(old(moves)@)
                + double_push_moves(targets, up, color),
        decreases m,
    {
        proof {
            lemma_low_index(m);
        }
        let to = 1u64 << m.trailing_zeros();
        let from = if up {
            to >> 16u64
        } else {
            to << 16u64
        };
        let ghost before = moves@;
        let ghost item = (encode(from, to, PAWN, color), MoveType::DoublePawnPush);
        moves.push(Move::double_pawn_push(from, to, PAWN, color));
        proof {
            assert(views(moves@) =~= views(before).push(item));
            assert(double_push_moves(m, up, color) =~= seq![item] + double_push_moves(
                without_low(m),
                up,
                color,
            ));
            assert(views(moves@) + double_push_moves(without_low(m), up, color) =~= views(before)
                + double_push_moves(m, up, color));
        }
        m = m & (m - 1);
    }
}

/// Appends the four promotions of each pawn move reaching a square of `targets`.
fn push_promotions(moves: &mut Vec<Move>, targets: u64, shift: u64, up: bool, color: u8)
    requires
        shift < 64,
    ensures
        views(final(moves)@) == views(old(moves)@) + promotion_moves(targets, shift, up, color),
{
    let mut m = targets;
    while m != 0
        invariant
            shift < 64,
            views(moves@) + promotion_moves(m, shift, up, color) == views(old(moves)@)
                + promotion_moves(targets, shift, up, color),
        decreases m,
    {
        proof {
            lemma_low_index(m);
        }
        let to = 1u64 << m.trailing_zeros();
        let from = if up {
            to >> shift
        } else {
            to << shift
        };
        let ghost before = moves@;
        moves.push(Move::promotion(from, to, PAWN, color, QUEEN));
        moves.push(Move::promotion(from, to, PAWN, color, ROOK));
        moves.push(Move::promotion(from, to, PAWN, color, BISHOP));
        moves.push(Move::promotion(from, to, PAWN, color, KNIGHT));
        proof {
            assert(views(moves@) =~= views(before) + promotions_to(from, to, color));
            assert(promotion_moves(m, shift, up, color) =~= promotions_to(from, to, color)
                + promotion_moves(without_low(m), shift, up, color));
            assert(views(moves@) + promotion_moves(without_low(m), shift, up, color) =~= views(before)
                + promotion_moves(m, shift, up, color));
        }
        m = m & (m - 1);
    }
}

/// Appends the en passant captures of the pawns `pawns` of `color`.
fn push_en_passant(chessboard: &Chessboard, color: u8, pawns: u64, moves: &mut Vec<Move>)
    requires
        is_color(color),
        en_passant_in_range(chessboard@, color),
    ensures
        views(final(moves)@) == views(old(moves)@) + en_passant_moves(chessboard@, color, pawns),
{
    let target_file = chessboard.get_en_passant();
    if target_file != 0 {
        if color == WHITE {
            let to_square = 1u64 << ((target_file - 1) as u64 + 40);
            let captured_square = to_square >> 8u64;
            let right_capture = (captured_square & !FILE_0) >> 1u64;
            if right_capture & pawns != 0 {
                moves.push(Move::en_passant(right_capture, to_square, PAWN, WHITE, captured_square));
            }
            let left_capture = (captured_square & !FILE_7) << 1u64;
            if left_capture & pawns != 0 {
                moves.push(Move::en_passant(left_capture, to_square, PAWN, WHITE, captured_square));
            }
        } else {
            let to_square = 1u64 << ((target_file - 1) as u64 + 16);
            let captured_square = to_square << 8u64;
            let right_capture = (captured_square & !FILE_7) << 1u64;
            if right_capture & pawns != 0 {
                moves.push(Move::en_passant(right_capture, to_square, PAWN, BLACK, captured_square));
            }
            let left_capture = (captured_square & !FILE_0) >> 1u64;
            if left_capture & pawns != 0 {
                moves.push(Move::en_passant(left_capture, to_square, PAWN, BLACK, captured_square));
            }
        }
    }
    assert(views(moves@) =~= views(old(moves)@) + en_passant_moves(chessboard@, color, pawns));
}

/// Appends the pseudo-legal pawn moves of `color`: single and double
/// pushes, captures, en passant captures, and promotions (queen, rook,
/// bishop, knight) by capture or push. A two-square push is a
/// `DoublePawnPush`, so that playing it records the en passant file.
pub fn get_pawn_moves(chessboard: &Chessboard, color: u8, moves: &mut Vec<Move>)
    requires
        is_color(color),
        en_passant_in_range(chessboard@, color),
    ensures
        views(final(moves)@) == views(old(moves)@) + pawn_moves_spec(chessboard@, color),
{
    if color == WHITE {
        push_white_pawn_moves(chessboard, moves);
    } else {
        push_black_pawn_moves(chessboard, moves);
    }
}

#[verifier::rlimit(60)]
fn push_white_pawn_moves(chessboard: &Chessboard, moves: &mut Vec<Move>)
    requires
        en_passant_in_range(chessboard@, WHITE),
    ensures
        views(final(moves)@) == views(old(moves)@) + pawn_moves_spec(chessboard@, WHITE),
{
    let ghost v = chessboard@;
    let pieces = chessboard.get_white_pieces();
    let opponent_pieces = chessboard.get_black_pieces();
    let pawns = chessboard.get_piece_mask(PAWN, WHITE);

    let mut move_mask = ((pawns & !RANK_8) << 8u64) & !(pieces | opponent_pieces);
    let promotion_mask = move_mask & RANK_8;
    move_mask = move_mask & !promotion_mask;
    let two_step_pawns = ((move_mask & RANK_3) << 8u64) & !(pieces | opponent_pieces);

    let mut right_capture_mask = ((pawns & !FILE_0) << 7u64) & opponent_pieces;
    let mut left_capture_mask = ((pawns & !FILE_7) << 9u64) & opponent_pieces;
    let right_promotion_capture_mask = right_capture_mask & RANK_8;
    let left_promotion_capture_mask = left_capture_mask & RANK_8;
    right_capture_mask = right_capture_mask & !right_promotion_capture_mask;
    left_capture_mask = left_capture_mask & !left_promotion_capture_mask;

    let ghost s0 = views(moves@);
    push_pawn_steps(moves, move_mask, 8, true, WHITE);
    let ghost s1 = views(moves@);
    push_double_pushes(moves, two_step_pawns, true, WHITE);
    let ghost s2 = views(moves@);
    push_pawn_steps(moves, left_capture_mask, 9, true, WHITE);
    let ghost s3 = views(moves@);
    push_pawn_steps(moves, right_capture_mask, 7, true, WHITE);
    let ghost s4 = views(moves@);
    push_en_passant(chessboard, WHITE, pawns, moves);
    let ghost s5 = views(moves@);
    push_promotions(moves, left_promotion_capture_mask, 9, true, WHITE);
    let ghost s6 = views(moves@);
    push_promotions(moves, right_promotion_capture_mask, 7, true, WHITE);
    let ghost s7 = views(moves@);
    push_promotions(moves, promotion_mask, 8, true, WHITE);
    proof {
        let a1 = step_moves(move_mask, 8, true, WHITE);
        let a2 = double_push_moves(two_step_pawns, true, WHITE);
        let a3 = step_moves(left_capture_mask, 9, true, WHITE);
        let a4 = step_moves(right_capture_mask, 7, true, WHITE);
        let a5 = en_passant_moves(v, WHITE, pawns);
        let a6 = promotion_moves(left_promotion_capture_mask, 9, true, WHITE);
        let a7 = promotion_moves(right_promotion_capture_mask, 7, true, WHITE);
        let a8 = promotion_moves(promotion_mask, 8, true, WHITE);
        assert(pawn_moves_spec(v, WHITE) == a1 + a2 + a3 + a4 + a5 + a6 + a7 + a8);
        assert(views(moves@) =~= s0 + (a1 + a2 + a3 + a4 + a5 + a6 + a7 + a8));
    }
}

#[verifier::rlimit(60)]
fn push_black_pawn_moves(chessboard: &Chessboard, moves: &mut Vec<Move>)
    requires
        en_passant_in_range(chessboard@, BLACK),
    ensures
        views(final(moves)@) == views(old(moves)@) + pawn_moves_spec(chessboard@, BLACK),
{
    let ghost v = chessboard@;
    let pieces = chessboard.get_black_pieces();
    let opponent_pieces = chessboard.get_white_pieces();
    let pawns = chessboard.get_piece_mask(PAWN, BLACK);

    let mut move_mask = ((pawns & !RANK_1) >> 8u64) & !(pieces | opponent_pieces);
    let promotion_mask = move_mask & RANK_1;
    move_mask = move_mask & !promotion_mask;
    let two_step_pawns = ((move_mask & RANK_6) >> 8u64) & !(pieces | opponent_pieces);

    let mut right_capture_mask = ((pawns & !FILE_0) >> 9u64) & opponent_pieces;
    let mut left_capture_mask = ((pawns & !FILE_7) >> 7u64) & opponent_pieces;
    let right_promotion_capture_mask = right_capture_mask & RANK_1;
    let left_promotion_capture_mask = left_capture_mask & RANK_1;
    right_capture_mask = right_capture_mask & !right_promotion_capture_mask;
    left_capture_mask = left_capture_mask & !left_promotion_capture_mask;

    let ghost s0 = views(moves@);
    push_pawn_steps(moves, move_mask, 8, false, BLACK);
    push_double_pushes(moves, two_step_pawns, false, BLACK);
    push_pawn_steps(moves, left_capture_mask, 7, false, BLACK);
    push_pawn_steps(moves, right_capture_mask, 9, false, BLACK);
    push_en_passant(chessboard, BLACK, pawns, moves);
    push_promotions(moves, left_promotion_capture_mask, 7, false, BLACK);
    push_promotions(moves, right_promotion_capture_mask, 9, false, BLACK);
    push_promotions(moves, promotion_mask, 8, false, BLACK);
    proof {
        let a1 = step_moves(move_mask, 8, false, BLACK);
        let a2 = double_push_moves(two_step_pawns, false, BLACK);
        let a3 = step_moves(left_capture_mask, 7, false, BLACK);
        let a4 = step_moves(right_capture_mask, 9, false, BLACK);
        let a5 = en_passant_moves(v, BLACK, pawns);
        let a6 = promotion_moves(left_promotion_capture_mask, 7, false, BLACK);
        let a7 = promotion_moves(right_promotion_capture_mask, 9, false, BLACK);
        let a8 = promotion_moves(promotion_mask, 8, false, BLACK);
        assert(pawn_moves_spec(v, BLACK) == a1 + a2 + a3 + a4 + a5 + a6 + a7 + a8);
        assert(views(moves@) =~= s0 + (a1 + a2 + a3 + a4 + a5 + a6 + a7 + a8));
    }
}

/// Appends the pseudo-legal knight moves of `color`.
pub fn get_knight_moves(chessboard: &Chessboard, color: u8, moves: &mut Vec<Move>)
    requires
        is_color(color),
    ensures
        views(final(moves)@) == views(old(moves)@) + knight_moves_spec(chessboard@, color),
{
    let ghost v = chessboard@;
    let mut knight_mask = chessboard.get_piece_mask(KNIGHT, color);
    let own_pieces = if color == 1 {
        chessboard.get_white_pieces()
    } else {
        chessboard.get_black_pieces()
    };
    while knight_mask != 0
        invariant
            own_pieces == own_occupancy(v, color),
            views(moves@) + expand(knight_mask, knight_from(v, color)) == views(old(moves)@)
                + knight_moves_spec(v, color),
        decreases knight_mask,
    {
        proof {
            lemma_low_index(knight_mask);
        }
        let from = 1u64 << knight_mask.trailing_zeros();
        let mut move_mask = 0u64;
        move_mask = move_mask | ((from & !FILE_0) >> 17u64);
        move_mask = move_mask | ((from & !FILE_7) >> 15u64);
        move_mask = move_mask | ((from & !(FILE_1 | FILE_0)) >> 10u64);
        move_mask = move_mask | ((from & !(FILE_7 | FILE_6)) >> 6u64);
        move_mask = move_mask | ((from & !FILE_0) << 15u64);
        move_mask = move_mask | ((from & !FILE_7) << 17u64);
        move_mask = move_mask | ((from & !(FILE_1 | FILE_0)) << 6u64);
        move_mask = move_mask | ((from & !(FILE_7 | FILE_6)) << 10u64);
        move_mask = move_mask & !own_pieces;
        let ghost before = views(moves@);
        push_targets(moves, from, move_mask, KNIGHT, color);
        proof {
            assert(expand(knight_mask, knight_from(v, color)) =~= knight_from(v, color)(from) + expand(
                without_low(knight_mask),
                knight_from(v, color),
            ));
            assert(views(moves@) + expand(without_low(knight_mask), knight_from(v, color)) =~= before
                + expand(knight_mask, knight_from(v, color)));
        }
        knight_mask = knight_mask & (knight_mask - 1);
    }
}

/// Sweeps from `from` along one direction, seven steps of `step` squares at
/// most, adding to `acc` each reached square not in `own` and stopping
/// after a square in `stop`.
fn slide(acc: u64, from: u64, step: u64, left: bool, stop: u64, own: u64) -> (r: u64)
    requires
        1 <= step <= 9,
    ensures
        r == ray_fill(acc, from, step, left, stop, own, 1),
{
    let mut move_mask = acc;
    let mut i: u64 = 1;
    while i < 8
        invariant
            1 <= i <= 8,
            1 <= step <= 9,
            ray_fill(move_mask, from, step, left, stop, own, i) == ray_fill(acc, from, step, left, stop, own, 1),
        decreases 8 - i,
    {
        assert(step * i <= 63) by (nonlinear_arith)
            requires
                1 <= step <= 9,
                1 <= i < 8,
        ;
        let dest = if left {
            from << (step * i)
        } else {
            from >> (step * i)
        };
        move_mask = move_mask | (dest & !own);
        if (dest & stop) != 0 {
            return move_mask;
        }
        i = i + 1;
    }
    move_mask
}

/// Appends the diagonal moves of the bishops of `color`, or, when
/// `queen_mask` is given, of the pieces on it (recorded as queen moves).
pub fn get_bishop_moves(chessboard: &Chessboard, color: u8, moves: &mut Vec<Move>, queen_mask: Option<u64>)
    requires
        is_color(color),
    ensures
        views(final(moves)@) == views(old(moves)@) + bishop_moves_spec(chessboard@, color, queen_mask),
{
    let ghost v = chessboard@;
    let piece = if queen_mask.is_some() {
        QUEEN
    } else {
        BISHOP
    };
    let mut bishop_mask = match queen_mask {
        Some(q_mask) => q_mask,
        None => if color == 1 {
            chessboard.get_piece_mask(BISHOP, WHITE)
        } else {
            chessboard.get_piece_mask(BISHOP, BLACK)
        },
    };
    let own_pieces = if color == 1 {
        chessboard.get_white_pieces()
    } else {
        chessboard.get_black_pieces()
    };
    let all_pieces = chessboard.get_white_pieces() | chessboard.get_black_pieces();
    let ghost g = bishop_from(v, color, slider_piece(queen_mask, BISHOP));
    while bishop_mask != 0
        invariant
            own_pieces == own_occupancy(v, color),
            all_pieces == v.white | v.black,
            piece == slider_piece(queen_mask, BISHOP),
            g == bishop_from(v, color, slider_piece(queen_mask, BISHOP)),
            views(moves@) + expand(bishop_mask, g) == views(old(moves)@) + bishop_moves_spec(v, color, queen_mask),
        decreases bishop_mask,
    {
        proof {
            lemma_low_index(bishop_mask);
        }
        let from = 1u64 << bishop_mask.trailing_zeros();
        let mut move_mask: u64 = 0;
        if (from & (RANK_8 | FILE_7)) == 0 {
            move_mask = slide(move_mask, from, 9, true, (RANK_8 | FILE_7) | all_pieces, own_pieces);
        }
        if (from & (RANK_1 | FILE_7)) == 0 {
            move_mask = slide(move_mask, from, 7, false, (RANK_1 | FILE_7) | all_pieces, own_pieces);
        }
        if (from & (RANK_8 | FILE_0)) == 0 {
            move_mask = slide(move_mask, from, 7, true, (FILE_0 | RANK_8) | all_pieces, own_pieces);
        }
        if (from & (RANK_1 | FILE_0)) == 0 {
            move_mask = slide(move_mask, from, 9, false, (FILE_0 | RANK_1) | all_pieces, own_pieces);
        }
        move_mask = move_mask & !own_pieces;
        let ghost before = views(moves@);
        push_targets(moves, from, move_mask, piece, color);
        proof {
            assert(expand(bishop_mask, g) =~= g(from) + expand(without_low(bishop_mask), g));
            assert(views(moves@) + expand(without_low(bishop_mask), g) =~= before + expand(bishop_mask, g));
        }
        bishop_mask = bishop_mask & (bishop_mask - 1);
    }
}

/// Appends the straight moves of the rooks of `color`, or, when
/// `queen_mask` is given, of the pieces on it (recorded as queen moves).
pub fn get_rook_moves(chessboard: &Chessboard, color: u8, moves: &mut Vec<Move>, queen_mask: Option<u64>)
    requires
        is_color(color),
    ensures
        views(final(moves)@) == views(old(moves)@) + rook_moves_spec(chessboard@, color, queen_mask),
{
    let ghost v = chessboard@;
    let piece = if queen_mask.is_some() {
        QUEEN
    } else {
        ROOK
    };
    let mut rook_mask = match queen_mask {
        Some(q_mask) => q_mask,
        None => if color == 1 {
            chessboard.get_piece_mask(ROOK, WHITE)
        } else {
            chessboard.get_piece_mask(ROOK, BLACK)
        },
    };
    let own_pieces = if color == 1 {
        chessboard.get_white_pieces()
    } else {
        chessboard.get_black_pieces()
    };
    let all_pieces = chessboard.get_white_pieces() | chessboard.get_black_pieces();
    let ghost g = rook_from(v, color, slider_piece(queen_mask, ROOK));
    while rook_mask != 0
        invariant
            own_pieces == own_occupancy(v, color),
            all_pieces == v.white | v.black,
            piece == slider_piece(queen_mask, ROOK),
            g == rook_from(v, color, slider_piece(queen_mask, ROOK)),
            views(moves@) + expand(rook_mask, g) == views(old(moves)@) + rook_moves_spec(v, color, queen_mask),
        decreases rook_mask,
    {
        proof {
            lemma_low_index(rook_mask);
        }
        let from = 1u64 << rook_mask.trailing_zeros();
        let mut move_mask: u64 = 0;
        if (from & RANK_8) == 0 {
            move_mask = slide(move_mask, from, 8, true, RANK_8 | all_pieces, own_pieces);
        }
        if (from & RANK_1) == 0 {
            move_mask = slide(move_mask, from, 8, false, RANK_1 | all_pieces, own_pieces);
        }
        if (from & FILE_7) == 0 {
            move_mask = slide(move_mask, from, 1, true, FILE_7 | all_pieces, own_pieces);
        }
        if (from & FILE_0) == 0 {
            move_mask = slide(move_mask, from, 1, false, FILE_0 | all_pieces, own_pieces);
        }
        move_mask = move_mask & !own_pieces;
        let ghost before = views(moves@);
        push_targets(moves, from, move_mask, piece, color);
        proof {
            assert(expand(rook_mask, g) =~= g(from) + expand(without_low(rook_mask), g));
            assert(views(moves@) + expand(without_low(rook_mask), g) =~= before + expand(rook_mask, g));
        }
        rook_mask = rook_mask & (rook_mask - 1);
    }
}

/// Appends the queen moves of `color`: diagonal moves, then straight moves.
pub fn get_queen_moves(chessboard: &Chessboard, color: u8, moves: &mut Vec<Move>)
    requires
        is_color(color),
    ensures
        views(final(moves)@) == views(old(moves)@) + queen_moves_spec(chessboard@, color),
{
    let queen_mask = chessboard.get_piece_mask(QUEEN, color);
    let ghost s0 = views(moves@);
    get_bishop_moves(chessboard, color, moves, Some(queen_mask));
    get_rook_moves(chessboard, color, moves, Some(queen_mask));
    assert(views(moves@) =~= s0 + queen_moves_spec(chessboard@, color));
}

/// Whether `attacker_color` attacks a square of `square_mask`: some of its
/// pawn (pushes included), knight, bishop, rook or queen moves ends there,
/// or one of its kings is next to it and it holds no piece of its own.
pub fn is_square_attacked(chessboard: &Chessboard, square_mask: u64, attacker_color: u8) -> (r: bool)
    requires
        is_color(attacker_color),
        en_passant_in_range(chessboard@, attacker_color),
    ensures
        r == attacked(chessboard@, square_mask, attacker_color),
{
    let ghost v = chessboard@;
    let mut moves: Vec<Move> = Vec::new();
    get_pawn_moves(chessboard, attacker_color, &mut moves);
    get_knight_moves(chessboard, attacker_color, &mut moves);
    get_bishop_moves(chessboard, attacker_color, &mut moves, None);
    get_rook_moves(chessboard, attacker_color, &mut moves, None);
    get_queen_moves(chessboard, attacker_color, &mut moves);
    let ghost am = attack_moves(v, attacker_color);
    assert(views(moves@) =~= am);

    let mut i: usize = 0;
    while i < moves.len()
        invariant
            i <= moves.len(),
            v == chessboard@,
            am == attack_moves(v, attacker_color),
            views(moves@) == am,
            forall|j: int| 0 <= j < i ==> !#[trigger] hits(am[j], square_mask),
        decreases moves.len() - i,
    {
        let mv = moves[i];
        assert(views(moves@)[i as int] == mv@);
        if (mv.get_to_mask() & square_mask) != 0 {
            assert(hits(am[i as int], square_mask));
            assert(attacked(v, square_mask, attacker_color));
            return true;
        }
        i = i + 1;
    }
    assert(forall|j: int| 0 <= j < am.len() ==> !#[trigger] hits(am[j], square_mask));

    let enemy_king = chessboard.get_piece_mask(KING, attacker_color);
    let mut king_attacks = 0u64;
    king_attacks = king_attacks | (((enemy_king & !FILE_0) >> 1u64) | ((enemy_king & !(FILE_0 | RANK_8))
        >> 9u64) | ((enemy_king & !(FILE_7 | RANK_8)) >> 7u64) | ((enemy_king & !RANK_1) >> 8u64) | ((
    enemy_king & !RANK_8) << 8u64));
    king_attacks = king_attacks | (((enemy_king & !FILE_7) << 1u64) | ((enemy_king & !(FILE_0 | RANK_8))
        << 7u64) | ((enemy_king & !(FILE_7 | RANK_8)) << 9u64) | ((enemy_king & !RANK_1) >> 8u64) | ((
    enemy_king & !RANK_8) << 8u64));
    let attacker_pieces = if attacker_color == WHITE {
        chessboard.get_white_pieces()
    } else {
        chessboard.get_black_pieces()
    };
    king_attacks = king_attacks & !attacker_pieces;

    if (king_attacks & square_mask) != 0 {
        return true;
    }
    false
}

/// Appends `mv` when `allowed` and, once it is played, neither `sq1` nor
/// `sq2` is attacked by the opponent.
fn push_castling(
    chessboard: &Chessboard,
    color: u8,
    allowed: bool,
    from: u64,
    to: u64,
    rook_from: u64,
    rook_to: u64,
    sq1: u64,
    sq2: u64,
    moves: &mut Vec<Move>,
)
    requires
        is_color(color),
    ensures
        views(final(moves)@) == views(old(moves)@) + castle_if(
            chessboard@,
            color,
            allowed,
            castle(from, to, color, rook_from, rook_to),
            sq1,
            sq2,
        ),
{
    if allowed {
        let mv = Move::castling(from, to, KING, color, rook_from, rook_to);
        let mut after = *chessboard;
        after.move_piece(KING, color, &mv);
        proof {
            lemma_move_piece_en_passant(chessboard@, KING, color, mv@);
        }
        let opp = other_color(color);
        if !is_square_attacked(&after, sq1, opp) && !is_square_attacked(&after, sq2, opp) {
            moves.push(Move::castling(from, to, KING, color, rook_from, rook_to));
        }
    }
    assert(views(moves@) =~= views(old(moves)@) + castle_if(
        chessboard@,
        color,
        allowed,
        castle(from, to, color, rook_from, rook_to),
        sq1,
        sq2,
    ));
}

/// Appends the king moves of `color`: each step to an adjacent square not
/// held by an own piece that, once played, does not stand attacked, then the
/// castling moves. The board is played on a copy and is left unchanged.
pub fn get_king_moves(chessboard: &mut Chessboard, color: u8, moves: &mut Vec<Move>)
    requires
        is_color(color),
    ensures
        *final(chessboard) == *old(chessboard),
        views(final(moves)@) == views(old(moves)@) + king_moves_spec(old(chessboard)@, color),
{
    let ghost v = chessboard@;
    let mut king_mask = chessboard.get_piece_mask(KING, color);
    let own_pieces = if color == WHITE {
        chessboard.get_white_pieces()
    } else {
        chessboard.get_black_pieces()
    };
    let castling_rights = chessboard.get_castling_rights();
    let opp = other_color(color);
    let ghost kf = king_from(v, color);

    while king_mask != 0
        invariant
            *chessboard == *old(chessboard),
            v == chessboard@,
            is_color(color),
            opp == opponent(color),
            own_pieces == own_occupancy(v, color),
            kf == king_from(v, color),
            views(moves@) + expand(king_mask, kf) == views(old(moves)@) + expand(mask_of(v, KING, color), kf),
        decreases king_mask,
    {
        proof {
            lemma_low_index(king_mask);
        }
        let from = 1u64 << king_mask.trailing_zeros();
        let mut move_mask = 0u64;
        move_mask = move_mask | (((from & !FILE_0) >> 1u64) | ((from & !(FILE_0 | RANK_8)) >> 9u64) | ((
        from & !(FILE_7 | RANK_8)) >> 7u64) | ((from & !RANK_1) >> 8u64) | ((from & !RANK_8) << 8u64));
        move_mask = move_mask | (((from & !FILE_7) << 1u64) | ((from & !(FILE_0 | RANK_8)) << 7u64) | ((
        from & !(FILE_7 | RANK_8)) << 9u64) | ((from & !RANK_1) >> 8u64) | ((from & !RANK_8) << 8u64));
        move_mask = move_mask & !own_pieces;
        let ghost targets = move_mask;
        let ghost step_start = views(moves@);
        let ghost g = king_step(v, color, from);
        assert(kf(from) == expand(targets, g));

        while move_mask != 0
            invariant
                v == chessboard@,
                is_color(color),
                opp == opponent(color),
                g == king_step(v, color, from),
                views(moves@) + expand(move_mask, g) == step_start + expand(targets, g),
            decreases move_mask,
        {
            proof {
                lemma_low_index(move_mask);
            }
            let to = 1u64 << move_mask.trailing_zeros();
            let mut after = *chessboard;
            let mv = Move::new(from, to, KING, color);
            after.move_piece(KING, color, &mv);
            proof {
                lemma_move_piece_en_passant(v, KING, color, mv@);
            }
            let ghost before = views(moves@);
            assert(after@ == move_piece_view(v, KING, color, normal(from, to, KING, color)));
            let attacked_now = is_square_attacked(&after, to, opp);
            assert(attacked_now == !king_step_ok(v, color, from, to));
            if !attacked_now {
                moves.push(Move::new(from, to, KING, color));
            }
            proof {
                assert(to == low_square(move_mask));
                assert(g(to) == (if king_step_ok(v, color, from, to) {
                    seq![normal(from, to, KING, color)]
                } else {
                    Seq::<(u16, MoveType)>::empty()
                }));
                assert(views(moves@) =~= before + g(to));
                assert(expand(move_mask, g) =~= g(to) + expand(without_low(move_mask), g));
                assert(views(moves@) + expand(without_low(move_mask), g) =~= before + expand(move_mask, g));
            }
            move_mask = move_mask & (move_mask - 1);
        }
        proof {
            assert(expand(king_mask, kf) =~= kf(from) + expand(without_low(king_mask), kf));
            assert(views(moves@) + expand(without_low(king_mask), kf) =~= step_start + expand(king_mask, kf));
        }
        king_mask = king_mask & (king_mask - 1);
    }

    let ghost before_castling = views(moves@);
    let occupied = chessboard.get_white_pieces() | chessboard.get_black_pieces();
    if color == WHITE {
        push_castling(
            chessboard,
            WHITE,
            (castling_rights & WHITE_KINGSIDE_CASTLE) != 0 && (occupied & ((1u64 << 1u64) | (1u64
                << 2u64))) == 0,
            1u64 << 3u64,
            1u64 << 1u64,
            1u64,
            1u64 << 2u64,
            1u64 << 2u64,
            1u64 << 1u64,
            moves,
        );
        push_castling(
            chessboard,
            WHITE,
            (castling_rights & WHITE_QUEENSIDE_CASTLE) != 0 && (occupied & ((1u64 << 4u64) | (1u64
                << 5u64) | (1u64 << 6u64))) == 0,
            1u64 << 3u64,
            1u64 << 5u64,
            1u64 << 7u64,
            1u64 << 4u64,
            1u64 << 4u64,
            1u64 << 5u64,
            moves,
        );
    } else {
        push_castling(
            chessboard,
            BLACK,
            (castling_rights & BLACK_KINGSIDE_CASTLE) != 0 && (occupied & ((1u64 << 57u64) | (1u64
                << 58u64))) == 0,
            1u64 << 59u64,
            1u64 << 57u64,
            1u64 << 56u64,
            1u64 << 58u64,
            1u64 << 58u64,
            1u64 << 57u64,
            moves,
        );
        push_castling(
            chessboard,
            BLACK,
            (castling_rights & BLACK_QUEENSIDE_CASTLE) != 0 && (occupied & ((1u64 << 60u64) | (1u64
                << 61u64) | (1u64 << 62u64))) == 0,
            1u64 << 59u64,
            1u64 << 61u64,
            1u64 << 63u64,
            1u64 << 60u64,
            1u64 << 60u64,
            1u64 << 61u64,
            moves,
        );
    }
    assert(views(moves@) =~= views(old(moves)@) + king_moves_spec(v, color));
}

/// The legal moves of `color`, in generation order: pawn, knight, bishop,
/// rook, queen and king moves, each kept when, once played (on a copy), no
/// king of `color` stands attacked. The board is left unchanged.
pub fn generate_moves(chessboard: &mut Chessboard, color: u8) -> (r: Vec<Move>)
    requires
        is_color(color),
        en_passant_in_range(old(chessboard)@, color),
    ensures
        *final(chessboard) == *old(chessboard),
        views(r@) == legal_moves(old(chessboard)@, color),
{
    let ghost v = chessboard@;
    let mut moves: Vec<Move> = Vec::new();
    get_pawn_moves(chessboard, color, &mut moves);
    get_knight_moves(chessboard, color, &mut moves);
    get_bishop_moves(chessboard, color, &mut moves, None);
    get_rook_moves(chessboard, color, &mut moves, None);
    get_queen_moves(chessboard, color, &mut moves);
    get_king_moves(chessboard, color, &mut moves);
    let ghost ps = pseudo_moves(v, color);
    let ghost lg = legality(v, color);
    assert(views(moves@) =~= ps);
    proof {
        lemma_pseudo_moves_playable(v, color);
    }

    let opp = other_color(color);
    let mut legal: Vec<Move> = Vec::new();
    let mut i: usize = 0;
    while i < moves.len()
        invariant
            i <= moves.len(),
            v == chessboard@,
            *chessboard == *old(chessboard),
            is_color(color),
            opp == opponent(color),
            views(moves@) == ps,
            all_playable(ps),
            lg == legality(v, color),
            views(legal@) == ps.take(i as int).filter(lg),
        decreases moves.len() - i,
    {
        let mv = moves[i];
        assert(views(moves@)[i as int] == mv@);
        assert(playable(ps[i as int]));
        let mut after = *chessboard;
        let piece = mv.get_piece_type();
        let mover = mv.get_color();
        after.move_piece(piece, mover, &mv);
        proof {
            lemma_move_piece_en_passant(v, piece, mover, mv@);
        }
        let king_mask = after.get_piece_mask(KING, color);
        let ghost before = views(legal@);
        if !is_square_attacked(&after, king_mask, opp) {
            legal.push(mv);
        }
        proof {
            assert(ps.take(i + 1).drop_last() =~= ps.take(i as int));
            assert(lg(mv@) == is_legal(v, color, mv@));
            reveal(Seq::filter);
            assert(views(legal@) =~= ps.take(i + 1).filter(lg));
        }
        i = i + 1;
    }
    assert(ps.take(moves.len() as int) =~= ps);
    legal
}

} // verus!
