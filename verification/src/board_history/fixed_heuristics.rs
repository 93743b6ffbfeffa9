//! Positional heuristics for the history board, each scoring ten points per
//! feature. On this board white's pieces start on the top rank (bits 56-63)
//! and black's on the bottom rank.
use vstd::prelude::*;

verus! {

use crate::bits::lemma_pop_count_u64;
use crate::board_history::board::{Chessboard, PositionView, board_of, WHITE, BLACK};
use crate::constants::{PAWN, KNIGHT, BISHOP, ROOK, QUEEN, KING};
use crate::heuristics::{pc, both, FOUR_CENTER_SQUARES, SIXTEEN_CENTER_SQUARES, LEFT_BOARD_EDGE, RIGHT_BOARD_EDGE};

/// The points of one feature.
pub const FEATURE_SCORE: i32 = 10;

/// The bitboards of a position, seen from one side.
pub struct Heuristics {
    pub color: i8,
    pub white_pieces: u64,
    pub black_pieces: u64,
    pub white_pawns: u64,
    pub black_pawns: u64,
    pub white_knights: u64,
    pub black_knights: u64,
    pub white_bishops: u64,
    pub black_bishops: u64,
    pub white_rooks: u64,
    pub black_rooks: u64,
    pub white_queens: u64,
    pub black_queens: u64,
    pub white_kings: u64,
    pub black_kings: u64,
}

/// The heuristics of a position for `color`.
pub open spec fn fixed_heuristics_of(p: PositionView, color: i8) -> Heuristics {
    Heuristics {
        color,
        white_pieces: p.white,
        black_pieces: p.black,
        white_pawns: board_of(p, PAWN, WHITE),
        black_pawns: board_of(p, PAWN, BLACK),
        white_knights: board_of(p, KNIGHT, WHITE),
        black_knights: board_of(p, KNIGHT, BLACK),
        white_bishops: board_of(p, BISHOP, WHITE),
        black_bishops: board_of(p, BISHOP, BLACK),
        white_rooks: board_of(p, ROOK, WHITE),
        black_rooks: board_of(p, ROOK, BLACK),
        white_queens: board_of(p, QUEEN, WHITE),
        black_queens: board_of(p, QUEEN, BLACK),
        white_kings: board_of(p, KING, WHITE),
        black_kings: board_of(p, KING, BLACK),
    }
}

impl Heuristics {
    /// Pawns of the side on d4, e4, d5, e5.
    pub open spec fn center_pawns(self) -> int {
        if self.color == WHITE {
            pc(self.white_pawns & FOUR_CENTER_SQUARES)
        } else {
            pc(self.black_pawns & FOUR_CENTER_SQUARES)
        }
    }

    /// Castled king-and-rook placements of the side (white: king on 62 with
    /// a rook on 61, king on 58 with a rook on 59; black: 6 with 5, 2 with 3).
    pub open spec fn castled(self) -> int {
        if self.color == WHITE {
            both(self.white_kings & (1u64 << 62u64), self.white_rooks & (1u64 << 61u64)) + both(
                self.white_kings & (1u64 << 58u64),
                self.white_rooks & (1u64 << 59u64),
            )
        } else {
            both(self.black_kings & (1u64 << 6u64), self.black_rooks & (1u64 << 5u64)) + both(
                self.black_kings & (1u64 << 2u64),
                self.black_rooks & (1u64 << 3u64),
            )
        }
    }

    /// Knights, bishops, rooks and queens of the side off their starting squares.
    pub open spec fn developed(self) -> int {
        if self.color == WHITE {
            pc(self.white_knights & !0x4200_0000_0000_0000u64) + pc(
                self.white_bishops & !0x2400_0000_0000_0000u64,
            ) + pc(self.white_rooks & !0x8100_0000_0000_0000u64) + pc(
                self.white_queens & !0x0800_0000_0000_0000u64,
            )
        } else {
            pc(self.black_knights & !0x42u64) + pc(self.black_bishops & !0x24u64) + pc(
                self.black_rooks & !0x81u64,
            ) + pc(self.black_queens & !0x08u64)
        }
    }

    /// Central knights of the side (two when a pawn defends them), less the
    /// knights on an edge file.
    pub open spec fn outposts(self) -> int {
        if self.color == WHITE {
            let center = self.white_knights & SIXTEEN_CENTER_SQUARES;
            let defended = ((self.white_pawns & !LEFT_BOARD_EDGE) << 7u64) | ((self.white_pawns
                & !RIGHT_BOARD_EDGE) << 9u64);
            pc(center & defended) * 2 + pc(center & !defended) - pc(self.white_knights & RIGHT_BOARD_EDGE)
                - pc(self.white_knights & LEFT_BOARD_EDGE)
        } else {
            let center = self.black_knights & SIXTEEN_CENTER_SQUARES;
            let defended = ((self.black_pawns & !LEFT_BOARD_EDGE) >> 9u64) | ((self.black_pawns
                & !RIGHT_BOARD_EDGE) >> 7u64);
            pc(center & defended) * 2 + pc(center & !defended) - pc(self.black_knights & RIGHT_BOARD_EDGE)
                - pc(self.black_knights & LEFT_BOARD_EDGE)
        }
    }

    pub fn new(position: &Chessboard, color: i8) -> (r: Heuristics)
        ensures
            r == fixed_heuristics_of(position@.current, color),
    {
        Heuristics {
            color,
            white_pieces: position.get_white_pieces(),
            black_pieces: position.get_black_pieces(),
            white_pawns: position.get_piece_mask(PAWN, WHITE),
            black_pawns: position.get_piece_mask(PAWN, BLACK),
            white_knights: position.get_piece_mask(KNIGHT, WHITE),
            black_knights: position.get_piece_mask(KNIGHT, BLACK),
            white_bishops: position.get_piece_mask(BISHOP, WHITE),
            black_bishops: position.get_piece_mask(BISHOP, BLACK),
            white_rooks: position.get_piece_mask(ROOK, WHITE),
            black_rooks: position.get_piece_mask(ROOK, BLACK),
            white_queens: position.get_piece_mask(QUEEN, WHITE),
            black_queens: position.get_piece_mask(QUEEN, BLACK),
            white_kings: position.get_piece_mask(KING, WHITE),
            black_kings: position.get_piece_mask(KING, BLACK),
        }
    }

    /// Ten points per pawn of the side on the four center squares.
    pub fn two_middle_pawns(&self) -> (r: i32)
        ensures
            r == FEATURE_SCORE * self.center_pawns(),
    {
        let mut score: i32 = 0;
        if self.color == WHITE {
            proof {
                lemma_pop_count_u64(self.white_pawns & FOUR_CENTER_SQUARES);
            }
            score = score + (self.white_pawns & FOUR_CENTER_SQUARES).count_ones() as i32 * FEATURE_SCORE;
        } else {
            proof {
                lemma_pop_count_u64(self.black_pawns & FOUR_CENTER_SQUARES);
            }
            score = score + (self.black_pawns & FOUR_CENTER_SQUARES).count_ones() as i32 * FEATURE_SCORE;
        }
        score
    }

    /// Ten points per castled king-and-rook placement of the side.
    pub fn castling(&self) -> (r: i32)
        ensures
            r == FEATURE_SCORE * self.castled(),
    {
        let mut score: i32 = 0;
        if self.color == WHITE {
            let white_king_short: u64 = self.white_kings & (1u64 << 62u64);
            let white_rook_short: u64 = self.white_rooks & (1u64 << 61u64);
            let white_king_long: u64 = self.white_kings & (1u64 << 58u64);
            let white_rook_long: u64 = self.white_rooks & (1u64 << 59u64);
            if white_king_short != 0 && white_rook_short != 0 {
                score = score + FEATURE_SCORE;
            }
            if white_king_long != 0 && white_rook_long != 0 {
                score = score + FEATURE_SCORE;
            }
        } else {
            let black_king_short: u64 = self.black_kings & (1u64 << 6u64);
            let black_rook_short: u64 = self.black_rooks & (1u64 << 5u64);
            let black_king_long: u64 = self.black_kings & (1u64 << 2u64);
            let black_rook_long: u64 = self.black_rooks & (1u64 << 3u64);
            if black_king_short != 0 && black_rook_short != 0 {
                score = score + FEATURE_SCORE;
            }
            if black_king_long != 0 && black_rook_long != 0 {
                score = score + FEATURE_SCORE;
            }
        }
        score
    }

    /// Ten points per knight, bishop, rook and queen of the side off its
    /// starting squares.
    pub fn development(&self) -> (r: i32)
        ensures
            r == FEATURE_SCORE * self.developed(),
    {
        let mut score: i32 = 0;
        if self.color == WHITE {
            proof {
                crate::constants::lemma_board_constants();
            }
            assert(!((1u64 << 57u64) | (1u64 << 62u64)) == !0x4200_0000_0000_0000u64 && !((1u64 << 58u64)
                | (1u64 << 61u64)) == !0x2400_0000_0000_0000u64 && !((1u64 << 56u64) | (1u64 << 63u64))
                == !0x8100_0000_0000_0000u64 && !(1u64 << 59u64) == !0x0800_0000_0000_0000u64);
            proof {
                lemma_pop_count_u64(self.white_knights & !0x4200_0000_0000_0000u64);
                lemma_pop_count_u64(self.white_bishops & !0x2400_0000_0000_0000u64);
                lemma_pop_count_u64(self.white_rooks & !0x8100_0000_0000_0000u64);
                lemma_pop_count_u64(self.white_queens & !0x0800_0000_0000_0000u64);
            }
            score = score + (self.white_knights & !((1u64 << 57u64) | (1u64 << 62u64))).count_ones() as i32
                * FEATURE_SCORE;
            score = score + (self.white_bishops & !((1u64 << 58u64) | (1u64 << 61u64))).count_ones() as i32
                * FEATURE_SCORE;
            score = score + (self.white_rooks & !((1u64 << 56u64) | (1u64 << 63u64))).count_ones() as i32
                * FEATURE_SCORE;
            score = score + (self.white_queens & !(1u64 << 59u64)).count_ones() as i32 * FEATURE_SCORE;
        } else {
            proof {
                crate::constants::lemma_board_constants();
            }
            assert(!((1u64 << 1u64) | (1u64 << 6u64)) == !0x42u64 && !((1u64 << 2u64) | (1u64 << 5u64))
                == !0x24u64 && !(1u64 | (1u64 << 7u64)) == !0x81u64 && !(1u64 << 3u64) == !0x08u64);
            proof {
                lemma_pop_count_u64(self.black_knights & !0x42u64);
                lemma_pop_count_u64(self.black_bishops & !0x24u64);
                lemma_pop_count_u64(self.black_rooks & !0x81u64);
                lemma_pop_count_u64(self.black_queens & !0x08u64);
            }
            score = score + (self.black_knights & !((1u64 << 1u64) | (1u64 << 6u64))).count_ones() as i32
                * FEATURE_SCORE;
            score = score + (self.black_bishops & !((1u64 << 2u64) | (1u64 << 5u64))).count_ones() as i32
                * FEATURE_SCORE;
            score = score + (self.black_rooks & !(1u64 | (1u64 << 7u64))).count_ones() as i32 * FEATURE_SCORE;
            score = score + (self.black_queens & !(1u64 << 3u64)).count_ones() as i32 * FEATURE_SCORE;
        }
        score
    }

    /// Mobility is not scored: always 0.
    pub fn mobility(&self) -> (r: i32)
        ensures
            r == 0,
    {
        0
    }

    /// Twenty points per central knight a pawn defends, ten per undefended
    /// central knight, minus ten per knight on an edge file.
    pub fn knight_outpost(&self) -> (r: i32)
        ensures
            r == FEATURE_SCORE * self.outposts(),
    {
        let mut score: i32 = 0;
        if self.color == WHITE {
            let center_knights: u64 = self.white_knights & SIXTEEN_CENTER_SQUARES;
            let defended_squares: u64 = ((self.white_pawns & !LEFT_BOARD_EDGE) << 7u64) | ((
            self.white_pawns & !RIGHT_BOARD_EDGE) << 9u64);
            proof {
                lemma_pop_count_u64(center_knights & defended_squares);
                lemma_pop_count_u64(center_knights & !defended_squares);
                lemma_pop_count_u64(self.white_knights & RIGHT_BOARD_EDGE);
                lemma_pop_count_u64(self.white_knights & LEFT_BOARD_EDGE);
            }
            score = score + (center_knights & defended_squares).count_ones() as i32 * FEATURE_SCORE * 2;
            score = score + (center_knights & !defended_squares).count_ones() as i32 * FEATURE_SCORE;
            score = score - (self.white_knights & RIGHT_BOARD_EDGE).count_ones() as i32 * FEATURE_SCORE;
            score = score - (self.white_knights & LEFT_BOARD_EDGE).count_ones() as i32 * FEATURE_SCORE;
        } else {
            let center_knights: u64 = self.black_knights & SIXTEEN_CENTER_SQUARES;
            let defended_squares: u64 = ((self.black_pawns & !LEFT_BOARD_EDGE) >> 9u64) | ((
            self.black_pawns & !RIGHT_BOARD_EDGE) >> 7u64);
            proof {
                lemma_pop_count_u64(center_knights & defended_squares);
                lemma_pop_count_u64(center_knights & !defended_squares);
                lemma_pop_count_u64(self.black_knights & RIGHT_BOARD_EDGE);
                lemma_pop_count_u64(self.black_knights & LEFT_BOARD_EDGE);
            }
            score = score + (center_knights & defended_squares).count_ones() as i32 * FEATURE_SCORE * 2;
            score = score + (center_knights & !defended_squares).count_ones() as i32 * FEATURE_SCORE;
            score = score - (self.black_knights & RIGHT_BOARD_EDGE).count_ones() as i32 * FEATURE_SCORE;
            score = score - (self.black_knights & LEFT_BOARD_EDGE).count_ones() as i32 * FEATURE_SCORE;
        }
        score
    }
}

} // verus!
