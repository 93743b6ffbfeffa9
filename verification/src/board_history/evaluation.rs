//! The evaluation of a history-board position: material plus the fixed
//! heuristics.
use vstd::prelude::*;

verus! {

use crate::bits::lemma_pop_count_u64;
use crate::board_history::board::{Chessboard, PositionView, board_of, WHITE, BLACK};
use crate::board_history::fixed_heuristics::{Heuristics, fixed_heuristics_of, FEATURE_SCORE};
use crate::heuristics::pc;

/// The value this evaluation gives the index `i` of its material loop:
/// 10, 30, 35, 50, 90 for 1 to 5.
pub open spec fn loop_value(i: int) -> int {
    if i == 1 {
        10
    } else if i == 2 {
        30
    } else if i == 3 {
        35
    } else if i == 4 {
        50
    } else if i == 5 {
        90
    } else if i == 6 {
        9999
    } else {
        0
    }
}

/// The material term of loop index `i`: the value of `i` times the count
/// difference of the kind `i + 1` (knights for 1, up to kings for 5), from
/// white's side when `for_color` is white and black's otherwise. Pawns are
/// not counted.
pub open spec fn material_step(p: PositionView, for_color: i8, i: int) -> int {
    let kind = (i + 1) as u8;
    let diff = pc(board_of(p, kind, WHITE)) - pc(board_of(p, kind, BLACK));
    if for_color == WHITE {
        loop_value(i) * diff
    } else {
        -(loop_value(i) * diff)
    }
}

/// The material terms of loop indices 1 to `n - 1`.
pub open spec fn material_upto(p: PositionView, for_color: i8, n: int) -> int
    decreases n,
{
    if n <= 1 {
        0
    } else {
        material_upto(p, for_color, n - 1) + material_step(p, for_color, n - 1)
    }
}

/// The material of a position: the terms of loop indices 1 to 5.
pub open spec fn material_spec(p: PositionView, for_color: i8) -> int {
    material_upto(p, for_color, 6)
}

/// The material balance for `for_color`.
pub fn material(position: &Chessboard, for_color: i8) -> (r: i32)
    ensures
        r == material_spec(position@.current, for_color),
{
    let ghost p = position@.current;
    let mut score: i32 = 0;
    let mut i: u8 = 1;
    while i < 6
        invariant
            1 <= i <= 6,
            p == position@.current,
            score == material_upto(p, for_color, i as int),
            -5760 * (i - 1) <= score <= 5760 * (i - 1),
        decreases 6 - i,
    {
        let piece_value: i32 = if i == 1 {
            10
        } else if i == 2 {
            30
        } else if i == 3 {
            35
        } else if i == 4 {
            50
        } else if i == 5 {
            90
        } else {
            0
        };
        let white = position.get_piece_mask(i + 1, WHITE);
        let black = position.get_piece_mask(i + 1, BLACK);
        proof {
            lemma_pop_count_u64(white);
            lemma_pop_count_u64(black);
        }
        let w = white.count_ones() as i32;
        let b = black.count_ones() as i32;
        assert(0 <= w * piece_value <= 64 * 90) by (nonlinear_arith)
            requires
                0 <= w <= 64,
                0 <= piece_value <= 90,
        ;
        assert(0 <= b * piece_value <= 64 * 90) by (nonlinear_arith)
            requires
                0 <= b <= 64,
                0 <= piece_value <= 90,
        ;
        if for_color == WHITE {
            score = score + w * piece_value;
            score = score - b * piece_value;
        } else {
            score = score - w * piece_value;
            score = score + b * piece_value;
        }
        assert(material_step(p, for_color, i as int) == if for_color == WHITE {
            w * piece_value - b * piece_value
        } else {
            b * piece_value - w * piece_value
        }) by (nonlinear_arith)
            requires
                w == pc(board_of(p, (i + 1) as u8, WHITE)),
                b == pc(board_of(p, (i + 1) as u8, BLACK)),
                piece_value == loop_value(i as int),
        ;
        i = i + 1;
    }
    score
}

/// The fixed heuristics of `color` added up: center pawns, castling, knight
/// outposts, development and mobility, ten points per feature.
pub open spec fn heuristics_spec(p: PositionView, color: i8) -> int {
    let h = fixed_heuristics_of(p, color);
    FEATURE_SCORE * h.center_pawns() + FEATURE_SCORE * h.castled() + FEATURE_SCORE * h.outposts()
        + FEATURE_SCORE * h.developed()
}

/// The fixed heuristics of `color`, added up.
pub fn heuristics(position: &Chessboard, color: i8) -> (r: i32)
    ensures
        r == heuristics_spec(position@.current, color),
        -1280 <= r <= 4500,
{
    let h = Heuristics::new(position, color);
    proof {
        lemma_fixed_bounds(h);
    }
    let mut score: i32 = 0;
    score = score + h.two_middle_pawns();
    score = score + h.castling();
    score = score + h.knight_outpost();
    score = score + h.development();
    score = score + h.mobility();
    score
}

/// The unweighted features of any position stay within fixed bounds.
proof fn lemma_fixed_bounds(h: Heuristics)
    ensures
        0 <= h.center_pawns() <= 64,
        0 <= h.castled() <= 2,
        0 <= h.developed() <= 256,
        -128 <= h.outposts() <= 128,
{
    crate::heuristics::lemma_heuristic_bounds(crate::heuristics::Heuristics {
        color: if h.color == WHITE {
            crate::constants::WHITE
        } else {
            crate::constants::BLACK
        },
        white_pieces: h.white_pieces,
        black_pieces: h.black_pieces,
        white_pawns: h.white_pawns,
        black_pawns: h.black_pawns,
        white_knights: h.white_knights,
        black_knights: h.black_knights,
        white_bishops: h.white_bishops,
        black_bishops: h.black_bishops,
        white_rooks: h.white_rooks,
        black_rooks: h.black_rooks,
        white_queens: h.white_queens,
        black_queens: h.black_queens,
        white_kings: h.white_kings,
        black_kings: h.black_kings,
        castling_rights: 0,
        legal_move_count: 0,
    });
    crate::bits::lemma_pop_count_u64(h.white_knights & !0x4200_0000_0000_0000u64);
    crate::bits::lemma_pop_count_u64(h.white_bishops & !0x2400_0000_0000_0000u64);
    crate::bits::lemma_pop_count_u64(h.white_rooks & !0x8100_0000_0000_0000u64);
    crate::bits::lemma_pop_count_u64(h.white_queens & !0x0800_0000_0000_0000u64);
    crate::bits::lemma_pop_count_u64(h.black_knights & !0x42u64);
    crate::bits::lemma_pop_count_u64(h.black_bishops & !0x24u64);
    crate::bits::lemma_pop_count_u64(h.black_rooks & !0x81u64);
    crate::bits::lemma_pop_count_u64(h.black_queens & !0x08u64);
}

/// Every evaluation lies between -70080 and 73300.
pub proof fn lemma_evaluation_bounds(p: PositionView, color: i8)
    ensures
        -70080 <= material_spec(p, color) + heuristics_spec(p, color) <= 73300,
{
    lemma_material_bound(p, color);
    lemma_fixed_bounds(fixed_heuristics_of(p, color));
}

/// The evaluation of a position for `color`: material plus heuristics.
pub fn evaluate(position: &Chessboard, color: i8) -> (r: i32)
    ensures
        r == material_spec(position@.current, color) + heuristics_spec(position@.current, color),
{
    let m = material(position, color);
    let h = heuristics(position, color);
    proof {
        lemma_material_bound(position@.current, color);
    }
    m + h
}

proof fn lemma_material_bound(p: PositionView, for_color: i8)
    ensures
        -68800 <= material_spec(p, for_color) <= 68800,
{
    lemma_material_upto_bound(p, for_color, 6);
}

proof fn lemma_material_upto_bound(p: PositionView, for_color: i8, n: int)
    requires
        1 <= n <= 6,
    ensures
        -13760 * (n - 1) <= material_upto(p, for_color, n) <= 13760 * (n - 1),
    decreases n,
{
    if n > 1 {
        lemma_material_upto_bound(p, for_color, n - 1);
        let kind = n as u8;
        crate::bits::lemma_pop_count_u64(board_of(p, kind, WHITE));
        crate::bits::lemma_pop_count_u64(board_of(p, kind, BLACK));
        let w = pc(board_of(p, kind, WHITE));
        let b = pc(board_of(p, kind, BLACK));
        let v = loop_value(n - 1);
        assert(-13760 <= v * (w - b) <= 13760) by (nonlinear_arith)
            requires
                0 <= w <= 64,
                0 <= b <= 64,
                0 <= v <= 90,
        ;
        assert(((n - 1) + 1) as u8 == kind);
        assert(material_step(p, for_color, n - 1) == (if for_color == WHITE {
            v * (w - b)
        } else {
            -(v * (w - b))
        }));
        assert(material_upto(p, for_color, n) == material_upto(p, for_color, n - 1) + material_step(
            p,
            for_color,
            n - 1,
        ));
    }
}

} // verus!
