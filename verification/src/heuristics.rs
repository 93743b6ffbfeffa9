//! Positional heuristics and the weights the evaluation gives them.
use vstd::prelude::*;

verus! {

use crate::bits::{pop_count, lemma_pop_count_u64};
use crate::chessboard::{Chessboard, BoardView, mask_of};
use crate::constants::{
    PAWN,
    KNIGHT,
    BISHOP,
    ROOK,
    QUEEN,
    KING,
    WHITE,
    BLACK,
    WHITE_KINGSIDE_CASTLE,
    WHITE_QUEENSIDE_CASTLE,
    BLACK_KINGSIDE_CASTLE,
    BLACK_QUEENSIDE_CASTLE,
    is_color,
};
use crate::movegenerator::{generate_moves, legal_moves, views, en_passant_in_range, MAX_MOVES};

/// The weight of each heuristic in the evaluation.
#[derive(Clone, Copy, Debug)]
pub struct HeuristicParams {
    pub two_middle_pawns_weight: i32,
    pub castling_weight: i32,
    pub development_weight: i32,
    pub mobility_weight: i32,
    pub knight_outpost_weight: i32,
}

impl Default for HeuristicParams {
    /// Every weight is 10.
    fn default() -> (r: Self)
        ensures
            r.two_middle_pawns_weight == 10,
            r.castling_weight == 10,
            r.development_weight == 10,
            r.mobility_weight == 10,
            r.knight_outpost_weight == 10,
    {
        HeuristicParams {
            two_middle_pawns_weight: 10,
            castling_weight: 10,
            development_weight: 10,
            mobility_weight: 10,
            knight_outpost_weight: 10,
        }
    }
}

/// d4, e4, d5, e5.
pub const FOUR_CENTER_SQUARES: u64 = 0x0000_0018_1800_0000u64;
/// The sixteen central squares of the knight outpost bonus: files c to f
/// on ranks 3 to 6.
pub const SIXTEEN_CENTER_SQUARES: u64 = 0x0000_3C3C_3C3C_0000u64;
pub const LEFT_BOARD_EDGE: u64 = 0x0101_0101_0101_0101u64;
pub const RIGHT_BOARD_EDGE: u64 = 0x8080_8080_8080_8080u64;

/// The bitboards of one position, seen from one side.
pub struct Heuristics {
    pub color: u8,
    pub white_pieces: u64,
    pub black_pieces: u64,
    pub white_pawns: u64,
    pub black_pawns: u64,
    pub white_knights: u64,
    pub black_knights: u64,
    pub white_bishops: u64,
    pub black_bishops: u64,
    pub white_rooks: u64,
    pub black_rooks: u64,
    pub white_queens: u64,
    pub black_queens: u64,
    pub white_kings: u64,
    pub black_kings: u64,
    /// The castling rights of the position.
    pub castling_rights: u8,
    /// The number of legal moves of the side.
    pub legal_move_count: usize,
}

/// Number of squares of a bitboard.
pub open spec fn pc(x: u64) -> int {
    pop_count(x as nat) as int
}

/// The number of legal moves of `color` on `v`.
#[verifier::opaque]
pub open spec fn legal_count(v: BoardView, color: u8) -> usize {
    legal_moves(v, color).len() as usize
}

/// The heuristics of a position for `color`.
pub open spec fn heuristics_of(v: BoardView, color: u8) -> Heuristics {
    Heuristics {
        color,
        white_pieces: v.white,
        black_pieces: v.black,
        white_pawns: mask_of(v, PAWN, WHITE),
        black_pawns: mask_of(v, PAWN, BLACK),
        white_knights: mask_of(v, KNIGHT, WHITE),
        black_knights: mask_of(v, KNIGHT, BLACK),
        white_bishops: mask_of(v, BISHOP, WHITE),
        black_bishops: mask_of(v, BISHOP, BLACK),
        white_rooks: mask_of(v, ROOK, WHITE),
        black_rooks: mask_of(v, ROOK, BLACK),
        white_queens: mask_of(v, QUEEN, WHITE),
        black_queens: mask_of(v, QUEEN, BLACK),
        white_kings: mask_of(v, KING, WHITE),
        black_kings: mask_of(v, KING, BLACK),
        castling_rights: v.castling,
        legal_move_count: legal_count(v, color),
    }
}

/// 1 when both bitboards are non-empty.
pub open spec fn both(a: u64, b: u64) -> int {
    if a != 0 && b != 0 {
        1
    } else {
        0
    }
}

impl Heuristics {
    /// Pawns of the side on d4, e4, d5, e5.
    pub open spec fn two_middle_pawns_spec(self) -> int {
        if self.color == WHITE {
            pc(self.white_pawns & FOUR_CENTER_SQUARES)
        } else {
            pc(self.black_pawns & FOUR_CENTER_SQUARES)
        }
    }

    /// Whether the side's king and rook stand on castled squares: for white
    /// the king on bit 1 and the rook on bit 2, or the king on bit 6 and the
    /// rook on bit 5; for black the king on bit 57 and the rook on bit 58, or
    /// the king on bit 61 and the rook on bit 60.
    pub open spec fn castled(self) -> bool {
        if self.color == WHITE {
            both(self.white_kings & (1u64 << 1u64), self.white_rooks & (1u64 << 2u64)) == 1 || both(
                self.white_kings & (1u64 << 6u64),
                self.white_rooks & (1u64 << 5u64),
            ) == 1
        } else {
            both(self.black_kings & (1u64 << 57u64), self.black_rooks & (1u64 << 58u64)) == 1 || both(
                self.black_kings & (1u64 << 61u64),
                self.black_rooks & (1u64 << 60u64),
            ) == 1
        }
    }

    /// The castling rights of the side.
    pub open spec fn own_rights(self) -> u8 {
        if self.color == WHITE {
            self.castling_rights & (WHITE_KINGSIDE_CASTLE | WHITE_QUEENSIDE_CASTLE)
        } else {
            self.castling_rights & (BLACK_KINGSIDE_CASTLE | BLACK_QUEENSIDE_CASTLE)
        }
    }

    /// The castling bonus: two points once the side has castled, one while
    /// it still holds a castling right, none otherwise.
    pub open spec fn castling_spec(self) -> int {
        if self.castled() {
            2
        } else if self.own_rights() != 0 {
            1
        } else {
            0
        }
    }

    /// The mobility bonus: one point for each legal move of the side.
    pub open spec fn mobility_spec(self) -> int {
        self.legal_move_count as int
    }

    /// Knights, bishops, rooks and queens of the side off their starting squares.
    pub open spec fn development_spec(self) -> int {
        if self.color == WHITE {
            pc(self.white_knights & !0x42u64) + pc(self.white_bishops & !0x24u64) + pc(
                self.white_rooks & !0x81u64,
            ) + pc(self.white_queens & !0x10u64)
        } else {
            pc(self.black_knights & !0x4200_0000_0000_0000u64) + pc(
                self.black_bishops & !0x2400_0000_0000_0000u64,
            ) + pc(self.black_rooks & !0x8100_0000_0000_0000u64) + pc(
                self.black_queens & !0x0800_0000_0000_0000u64,
            )
        }
    }

    /// Knights of the side in the center (two points when a pawn defends
    /// them, one otherwise), less one point per knight on an edge file.
    pub open spec fn knight_outpost_spec(self) -> int {
        if self.color == WHITE {
            let center = self.white_knights & SIXTEEN_CENTER_SQUARES;
            let defended = ((self.white_pawns & !LEFT_BOARD_EDGE) << 7u64) | ((self.white_pawns
                & !RIGHT_BOARD_EDGE) << 9u64);
            pc(center & defended) * 2 + pc(center & !defended) - pc(self.white_knights & RIGHT_BOARD_EDGE)
                - pc(self.white_knights & LEFT_BOARD_EDGE)
        } else {
            let center = self.black_knights & SIXTEEN_CENTER_SQUARES;
            let defended = ((self.black_pawns & !LEFT_BOARD_EDGE) >> 9u64) | ((self.black_pawns
                & !RIGHT_BOARD_EDGE) >> 7u64);
            pc(center & defended) * 2 + pc(center & !defended) - pc(self.black_knights & RIGHT_BOARD_EDGE)
                - pc(self.black_knights & LEFT_BOARD_EDGE)
        }
    }

    /// The heuristics of `position` for `color`, its legal moves counted.
    pub fn new(position: &Chessboard, color: u8) -> (r: Heuristics)
        requires
            is_color(color),
            en_passant_in_range(position@, color),
        ensures
            r == heuristics_of(position@, color),
    {
        let mut board = *position;
        let moves = generate_moves(&mut board, color);
        proof {
            reveal(legal_count);
            assert(views(moves@).len() == moves@.len());
        }
        Heuristics {
            color,
            white_pieces: position.get_white_pieces(),
            black_pieces: position.get_black_pieces(),
            white_pawns: position.get_piece_mask(PAWN, WHITE),
            black_pawns: position.get_piece_mask(PAWN, BLACK),
            white_knights: position.get_piece_mask(KNIGHT, WHITE),
            black_knights: position.get_piece_mask(KNIGHT, BLACK),
            white_bishops: position.get_piece_mask(BISHOP, WHITE),
            black_bishops: position.get_piece_mask(BISHOP, BLACK),
            white_rooks: position.get_piece_mask(ROOK, WHITE),
            black_rooks: position.get_piece_mask(ROOK, BLACK),
            white_queens: position.get_piece_mask(QUEEN, WHITE),
            black_queens: position.get_piece_mask(QUEEN, BLACK),
            white_kings: position.get_piece_mask(KING, WHITE),
            black_kings: position.get_piece_mask(KING, BLACK),
            castling_rights: position.get_castling_rights(),
            legal_move_count: moves.len(),
        }
    }

    /// Pawns of the side on the four center squares.
    pub fn two_middle_pawns(&self) -> (r: i32)
        ensures
            r == self.two_middle_pawns_spec(),
            0 <= r <= 64,
    {
        let four_center_squares: u64 = (1u64 << 27u64) | (1u64 << 28u64) | (1u64 << 35u64) | (1u64
            << 36u64);
        proof {
            crate::constants::lemma_board_constants();
        }
        assert(four_center_squares == FOUR_CENTER_SQUARES);
        let mut score: i32 = 0;
        if self.color == WHITE {
            proof {
                lemma_pop_count_u64(self.white_pawns & four_center_squares);
            }
            score = score + (self.white_pawns & four_center_squares).count_ones() as i32;
        } else {
            proof {
                lemma_pop_count_u64(self.black_pawns & four_center_squares);
            }
            score = score + (self.black_pawns & four_center_squares).count_ones() as i32;
        }
        score
    }

    /// Castling bonus: two points once the side has castled, one while it
    /// still holds a castling right.
    pub fn castling(&self) -> (r: i32)
        ensures
            r == self.castling_spec(),
            0 <= r <= 2,
    {
        let castled = if self.color == WHITE {
            (self.white_kings & (1u64 << 1u64) != 0 && self.white_rooks & (1u64 << 2u64) != 0) || (
            self.white_kings & (1u64 << 6u64) != 0 && self.white_rooks & (1u64 << 5u64) != 0)
        } else {
            (self.black_kings & (1u64 << 57u64) != 0 && self.black_rooks & (1u64 << 58u64) != 0) || (
            self.black_kings & (1u64 << 61u64) != 0 && self.black_rooks & (1u64 << 60u64) != 0)
        };
        let own_rights = if self.color == WHITE {
            self.castling_rights & (WHITE_KINGSIDE_CASTLE | WHITE_QUEENSIDE_CASTLE)
        } else {
            self.castling_rights & (BLACK_KINGSIDE_CASTLE | BLACK_QUEENSIDE_CASTLE)
        };
        if castled {
            2
        } else if own_rights != 0 {
            1
        } else {
            0
        }
    }

    /// Pieces of the side (knights, bishops, rooks, queens) that left their
    /// starting squares.
    pub fn development(&self) -> (r: i32)
        ensures
            r == self.development_spec(),
            0 <= r <= 256,
    {
        let mut score: i32 = 0;
        if self.color == WHITE {
            proof {
                crate::constants::lemma_board_constants();
            }
            assert(!((1u64 << 1u64) | (1u64 << 6u64)) == !0x42u64 && !((1u64 << 2u64) | (1u64 << 5u64))
                == !0x24u64 && !(1u64 | (1u64 << 7u64)) == !0x81u64 && !(1u64 << 4u64) == !0x10u64);
            proof {
                lemma_pop_count_u64(self.white_knights & !0x42u64);
                lemma_pop_count_u64(self.white_bishops & !0x24u64);
                lemma_pop_count_u64(self.white_rooks & !0x81u64);
                lemma_pop_count_u64(self.white_queens & !0x10u64);
            }
            score = score + (self.white_knights & !((1u64 << 1u64) | (1u64 << 6u64))).count_ones() as i32;
            score = score + (self.white_bishops & !((1u64 << 2u64) | (1u64 << 5u64))).count_ones() as i32;
            score = score + (self.white_rooks & !(1u64 | (1u64 << 7u64))).count_ones() as i32;
            score = score + (self.white_queens & !(1u64 << 4u64)).count_ones() as i32;
        } else {
            proof {
                crate::constants::lemma_board_constants();
            }
            assert(!((1u64 << 57u64) | (1u64 << 62u64)) == !0x4200_0000_0000_0000u64 && !((1u64 << 58u64)
                | (1u64 << 61u64)) == !0x2400_0000_0000_0000u64 && !((1u64 << 56u64) | (1u64 << 63u64))
                == !0x8100_0000_0000_0000u64 && !(1u64 << 59u64) == !0x0800_0000_0000_0000u64);
            proof {
                lemma_pop_count_u64(self.black_knights & !0x4200_0000_0000_0000u64);
                lemma_pop_count_u64(self.black_bishops & !0x2400_0000_0000_0000u64);
                lemma_pop_count_u64(self.black_rooks & !0x8100_0000_0000_0000u64);
                lemma_pop_count_u64(self.black_queens & !0x0800_0000_0000_0000u64);
            }
            score = score + (self.black_knights & !((1u64 << 57u64) | (1u64 << 62u64))).count_ones() as i32;
            score = score + (self.black_bishops & !((1u64 << 58u64) | (1u64 << 61u64))).count_ones() as i32;
            score = score + (self.black_rooks & !((1u64 << 56u64) | (1u64 << 63u64))).count_ones() as i32;
            score = score + (self.black_queens & !(1u64 << 59u64)).count_ones() as i32;
        }
        score
    }

    /// Mobility bonus: one point for each legal move of the side.
    pub fn mobility(&self) -> (r: i32)
        requires
            self.legal_move_count <= MAX_MOVES,
        ensures
            r == self.mobility_spec(),
    {
        self.legal_move_count as i32
    }

    /// Knight placement: two points per central knight a pawn defends, one
    /// per undefended central knight, minus one per knight on an edge file.
    pub fn knight_outpost(&self) -> (r: i32)
        ensures
            r == self.knight_outpost_spec(),
            -128 <= r <= 128,
    {
        let mut score: i32 = 0;
        if self.color == WHITE {
            let center_knights: u64 = self.white_knights & SIXTEEN_CENTER_SQUARES;
            let defended_squares: u64 = ((self.white_pawns & !LEFT_BOARD_EDGE) << 7u64) | ((
            self.white_pawns & !RIGHT_BOARD_EDGE) << 9u64);
            proof {
                lemma_pop_count_u64(center_knights & defended_squares);
                lemma_pop_count_u64(center_knights & !defended_squares);
                lemma_pop_count_u64(self.white_knights & RIGHT_BOARD_EDGE);
                lemma_pop_count_u64(self.white_knights & LEFT_BOARD_EDGE);
                lemma_center_split(center_knights, defended_squares);
            }
            score = score + (center_knights & defended_squares).count_ones() as i32 * 2;
            score = score + (center_knights & !defended_squares).count_ones() as i32;
            score = score - (self.white_knights & RIGHT_BOARD_EDGE).count_ones() as i32;
            score = score - (self.white_knights & LEFT_BOARD_EDGE).count_ones() as i32;
        } else {
            let center_knights: u64 = self.black_knights & SIXTEEN_CENTER_SQUARES;
            let defended_squares: u64 = ((self.black_pawns & !LEFT_BOARD_EDGE) >> 9u64) | ((
            self.black_pawns & !RIGHT_BOARD_EDGE) >> 7u64);
            proof {
                lemma_pop_count_u64(center_knights & defended_squares);
                lemma_pop_count_u64(center_knights & !defended_squares);
                lemma_pop_count_u64(self.black_knights & RIGHT_BOARD_EDGE);
                lemma_pop_count_u64(self.black_knights & LEFT_BOARD_EDGE);
                lemma_center_split(center_knights, defended_squares);
            }
            score = score + (center_knights & defended_squares).count_ones() as i32 * 2;
            score = score + (center_knights & !defended_squares).count_ones() as i32;
            score = score - (self.black_knights & RIGHT_BOARD_EDGE).count_ones() as i32;
            score = score - (self.black_knights & LEFT_BOARD_EDGE).count_ones() as i32;
        }
        score
    }
}

/// The mobility of any position is between 0 and `MAX_MOVES`.
pub proof fn lemma_mobility_bounded(v: BoardView, color: u8)
    ensures
        0 <= heuristics_of(v, color).mobility_spec() <= MAX_MOVES,
{
    reveal(legal_count);
    crate::movegenerator::lemma_moves_bounded(v, color);
}

/// The unweighted heuristics of any position stay within fixed bounds.
pub proof fn lemma_heuristic_bounds(e: Heuristics)
    ensures
        0 <= e.two_middle_pawns_spec() <= 64,
        0 <= e.castling_spec() <= 2,
        0 <= e.development_spec() <= 256,
        -128 <= e.knight_outpost_spec() <= 128,
{
    lemma_pop_count_u64(e.white_pawns & FOUR_CENTER_SQUARES);
    lemma_pop_count_u64(e.black_pawns & FOUR_CENTER_SQUARES);
    lemma_pop_count_u64(e.white_knights & !0x42u64);
    lemma_pop_count_u64(e.white_bishops & !0x24u64);
    lemma_pop_count_u64(e.white_rooks & !0x81u64);
    lemma_pop_count_u64(e.white_queens & !0x10u64);
    lemma_pop_count_u64(e.black_knights & !0x4200_0000_0000_0000u64);
    lemma_pop_count_u64(e.black_bishops & !0x2400_0000_0000_0000u64);
    lemma_pop_count_u64(e.black_rooks & !0x8100_0000_0000_0000u64);
    lemma_pop_count_u64(e.black_queens & !0x0800_0000_0000_0000u64);
    lemma_pop_count_u64(e.white_knights & RIGHT_BOARD_EDGE);
    lemma_pop_count_u64(e.white_knights & LEFT_BOARD_EDGE);
    lemma_pop_count_u64(e.black_knights & RIGHT_BOARD_EDGE);
    lemma_pop_count_u64(e.black_knights & LEFT_BOARD_EDGE);
    let wc = e.white_knights & SIXTEEN_CENTER_SQUARES;
    let wd = ((e.white_pawns & !LEFT_BOARD_EDGE) << 7u64) | ((e.white_pawns & !RIGHT_BOARD_EDGE) << 9u64);
    let bc = e.black_knights & SIXTEEN_CENTER_SQUARES;
    let bd = ((e.black_pawns & !LEFT_BOARD_EDGE) >> 9u64) | ((e.black_pawns & !RIGHT_BOARD_EDGE) >> 7u64);
    lemma_center_split(wc, wd);
    lemma_center_split(bc, bd);
    lemma_pop_count_u64(wc & wd);
    lemma_pop_count_u64(wc & !wd);
    lemma_pop_count_u64(bc & bd);
    lemma_pop_count_u64(bc & !bd);
}

/// A central knight is defended or not, never both: the two counts add up
/// to at most 64.
proof fn lemma_center_split(center: u64, defended: u64)
    ensures
        pc(center & defended) + pc(center & !defended) <= 64,
{
    crate::bits::lemma_pop_count_split(center, defended);
    lemma_pop_count_u64(center);
}

} // verus!
