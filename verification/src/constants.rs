//! Piece, color, square-set and castling constants shared by the whole library.
use vstd::prelude::*;

verus! {

pub const EMPTY: u8 = 0;
pub const PAWN: u8 = 1;
pub const KNIGHT: u8 = 2;
pub const BISHOP: u8 = 3;
pub const ROOK: u8 = 4;
pub const QUEEN: u8 = 5;
pub const KING: u8 = 6;

pub const WHITE: u8 = 1;
pub const BLACK: u8 = 0;
/// The color reported for an empty square.
pub const NONE: u8 = 0;

// Ranks, bit 0 is the first square of the first rank.
pub const RANK_1: u64 = 0x0000_0000_0000_00FFu64;
pub const RANK_2: u64 = 0x0000_0000_0000_FF00u64;
pub const RANK_3: u64 = 0x0000_0000_00FF_0000u64;
pub const RANK_4: u64 = 0x0000_0000_FF00_0000u64;
pub const RANK_5: u64 = 0x0000_00FF_0000_0000u64;
pub const RANK_6: u64 = 0x0000_FF00_0000_0000u64;
pub const RANK_7: u64 = 0x00FF_0000_0000_0000u64;
pub const RANK_8: u64 = 0xFF00_0000_0000_0000u64;

// Files, FILE_0 holds bits 0, 8, .., 56.
pub const FILE_0: u64 = 0x0101_0101_0101_0101u64;
pub const FILE_1: u64 = 0x0202_0202_0202_0202u64;
pub const FILE_6: u64 = 0x4040_4040_4040_4040u64;
pub const FILE_7: u64 = 0x8080_8080_8080_8080u64;

pub const LIGHT_SQUARES: u64 = 0x55AA_55AA_55AA_55AAu64;
pub const DARK_SQUARES: u64 = 0xAA55_AA55_AA55_AA55u64;
/// d4, e4, d5, e5
pub const CENTER_4: u64 = 0x0000_0018_1800_0000u64;

// Castling rights flags: bit 0 black kingside, bit 1 black queenside,
// bit 2 white kingside, bit 3 white queenside.
pub const WHITE_KINGSIDE_CASTLE: u8 = 0b0100u8;
pub const WHITE_QUEENSIDE_CASTLE: u8 = 0b1000u8;
pub const BLACK_KINGSIDE_CASTLE: u8 = 0b0001u8;
pub const BLACK_QUEENSIDE_CASTLE: u8 = 0b0010u8;

/// A piece type that owns a bitboard (pawn to king).
pub open spec fn is_piece_type(p: u8) -> bool {
    PAWN <= p <= KING
}

/// One of the two playing colors.
pub open spec fn is_color(c: u8) -> bool {
    c == WHITE || c == BLACK
}

/// The other playing color.
pub open spec fn opponent(c: u8) -> u8 {
    if c == WHITE { BLACK } else { WHITE }
}

/// The squares the board's constant masks are made of.
pub proof fn lemma_board_constants()
    ensures
        1u64 << 0u64 == 1u64,
        (1u64 << 27u64) | (1u64 << 28u64) | (1u64 << 35u64) | (1u64 << 36u64) == 0x0000_0018_1800_0000u64,
        !((1u64 << 1u64) | (1u64 << 6u64)) == !0x42u64 && !((1u64 << 2u64) | (1u64 << 5u64)) == !0x24u64 && !(1u64 | (1u64 << 7u64)) == !0x81u64 && !(1u64 << 4u64) == !0x10u64,
        !((1u64 << 57u64) | (1u64 << 62u64)) == !0x4200_0000_0000_0000u64 && !((1u64 << 58u64) | (1u64 << 61u64)) == !0x2400_0000_0000_0000u64 && !((1u64 << 56u64) | (1u64 << 63u64)) == !0x8100_0000_0000_0000u64 && !(1u64 << 59u64) == !0x0800_0000_0000_0000u64,
        !((1u64 << 57u64) | (1u64 << 62u64)) == !0x4200_0000_0000_0000u64 && !((1u64 << 58u64) | (1u64 << 61u64)) == !0x2400_0000_0000_0000u64 && !((1u64 << 56u64) | (1u64 << 63u64)) == !0x8100_0000_0000_0000u64 && !(1u64 << 59u64) == !0x0800_0000_0000_0000u64,
        !((1u64 << 1u64) | (1u64 << 6u64)) == !0x42u64 && !((1u64 << 2u64) | (1u64 << 5u64)) == !0x24u64 && !(1u64 | (1u64 << 7u64)) == !0x81u64 && !(1u64 << 3u64) == !0x08u64,
        0x0000_0000_0000_FF00u64 | ((1u64 << 1u64) | (1u64 << 6u64)) | ((1u64 << 2u64) | (1u64 << 5u64)) | (1u64 | (1u64 << 7u64)) | (1u64 << 4u64) | (1u64 << 3u64) == 0x0000_0000_0000_FFFFu64 && 0x00FF_0000_0000_0000u64 | ((1u64 << 57u64) | (1u64 << 62u64)) | ((1u64 << 58u64) | (1u64 << 61u64)) | ((1u64 << 56u64) | (1u64 << 63u64)) | (1u64 << 60u64) | (1u64 << 59u64) == 0xFFFF_0000_0000_0000u64 && (1u64 << 57u64) | ( 1u64 << 62u64) == 0x4200_0000_0000_0000u64 && (1u64 << 1u64) | (1u64 << 6u64) == 0x42u64 && (1u64 << 58u64) | (1u64 << 61u64) == 0x2400_0000_0000_0000u64 && (1u64 << 2u64) | ( 1u64 << 5u64) == 0x24u64 && (1u64 << 56u64) | (1u64 << 63u64) == 0x8100_0000_0000_0000u64 && 1u64 | (1u64 << 7u64) == 0x81u64 && 1u64 << 60u64 == 0x1000_0000_0000_0000u64 && 1u64 << 4u64 == 0x10u64 && 1u64 << 59u64 == 0x0800_0000_0000_0000u64 && 1u64 << 3u64 == 0x08u64 && 0u64 | 0x0000_0000_0000_FF00u64 == 0x0000_0000_0000_FF00u64 && 0u64 | 0x00FF_0000_0000_0000u64 == 0x00FF_0000_0000_0000u64,
        (1u64 << 57u64) | (1u64 << 62u64) == 0x4200_0000_0000_0000u64 && (1u64 << 1u64) | ( 1u64 << 6u64) == 0x42u64 && (1u64 << 58u64) | (1u64 << 61u64) == 0x2400_0000_0000_0000u64 && (1u64 << 2u64) | (1u64 << 5u64) == 0x24u64 && (1u64 << 56u64) | (1u64 << 63u64) == 0x8100_0000_0000_0000u64 && 1u64 | (1u64 << 7u64) == 0x81u64 && 1u64 << 59u64 == 0x0800_0000_0000_0000u64 && 1u64 << 3u64 == 0x08u64 && 1u64 << 60u64 == 0x1000_0000_0000_0000u64 && 1u64 << 4u64 == 0x10u64,
        0u64 | 0x0000_0000_0000_FF00u64 | 0x4200_0000_0000_0000u64 | 0x2400_0000_0000_0000u64 | 0x8100_0000_0000_0000u64 | 0x0800_0000_0000_0000u64 | 0x1000_0000_0000_0000u64 == 0xFF00_0000_0000_FF00u64 && 0u64 | 0x00FF_0000_0000_0000u64 | 0x42u64 | 0x24u64 | 0x81u64 | 0x08u64 | 0x10u64 == 0x00FF_0000_0000_00FFu64,
{
    assert((1u64 << 0u64 == 1u64) && ((1u64 << 27u64) | (1u64 << 28u64) | (1u64 << 35u64) | (1u64 << 36u64) == 0x0000_0018_1800_0000u64) && (!((1u64 << 1u64) | (1u64 << 6u64)) == !0x42u64 && !((1u64 << 2u64) | (1u64 << 5u64)) == !0x24u64 && !(1u64 | (1u64 << 7u64)) == !0x81u64 && !(1u64 << 4u64) == !0x10u64) && (!((1u64 << 57u64) | (1u64 << 62u64)) == !0x4200_0000_0000_0000u64 && !((1u64 << 58u64) | (1u64 << 61u64)) == !0x2400_0000_0000_0000u64 && !((1u64 << 56u64) | (1u64 << 63u64)) == !0x8100_0000_0000_0000u64 && !(1u64 << 59u64) == !0x0800_0000_0000_0000u64) && (!((1u64 << 57u64) | (1u64 << 62u64)) == !0x4200_0000_0000_0000u64 && !((1u64 << 58u64) | (1u64 << 61u64)) == !0x2400_0000_0000_0000u64 && !((1u64 << 56u64) | (1u64 << 63u64)) == !0x8100_0000_0000_0000u64 && !(1u64 << 59u64) == !0x0800_0000_0000_0000u64) && (!((1u64 << 1u64) | (1u64 << 6u64)) == !0x42u64 && !((1u64 << 2u64) | (1u64 << 5u64)) == !0x24u64 && !(1u64 | (1u64 << 7u64)) == !0x81u64 && !(1u64 << 3u64) == !0x08u64) && (0x0000_0000_0000_FF00u64 | ((1u64 << 1u64) | (1u64 << 6u64)) | ((1u64 << 2u64) | (1u64 << 5u64)) | (1u64 | (1u64 << 7u64)) | (1u64 << 4u64) | (1u64 << 3u64) == 0x0000_0000_0000_FFFFu64 && 0x00FF_0000_0000_0000u64 | ((1u64 << 57u64) | (1u64 << 62u64)) | ((1u64 << 58u64) | (1u64 << 61u64)) | ((1u64 << 56u64) | (1u64 << 63u64)) | (1u64 << 60u64) | (1u64 << 59u64) == 0xFFFF_0000_0000_0000u64 && (1u64 << 57u64) | ( 1u64 << 62u64) == 0x4200_0000_0000_0000u64 && (1u64 << 1u64) | (1u64 << 6u64) == 0x42u64 && (1u64 << 58u64) | (1u64 << 61u64) == 0x2400_0000_0000_0000u64 && (1u64 << 2u64) | ( 1u64 << 5u64) == 0x24u64 && (1u64 << 56u64) | (1u64 << 63u64) == 0x8100_0000_0000_0000u64 && 1u64 | (1u64 << 7u64) == 0x81u64 && 1u64 << 60u64 == 0x1000_0000_0000_0000u64 && 1u64 << 4u64 == 0x10u64 && 1u64 << 59u64 == 0x0800_0000_0000_0000u64 && 1u64 << 3u64 == 0x08u64 && 0u64 | 0x0000_0000_0000_FF00u64 == 0x0000_0000_0000_FF00u64 && 0u64 | 0x00FF_0000_0000_0000u64 == 0x00FF_0000_0000_0000u64) && ((1u64 << 57u64) | (1u64 << 62u64) == 0x4200_0000_0000_0000u64 && (1u64 << 1u64) | ( 1u64 << 6u64) == 0x42u64 && (1u64 << 58u64) | (1u64 << 61u64) == 0x2400_0000_0000_0000u64 && (1u64 << 2u64) | (1u64 << 5u64) == 0x24u64 && (1u64 << 56u64) | (1u64 << 63u64) == 0x8100_0000_0000_0000u64 && 1u64 | (1u64 << 7u64) == 0x81u64 && 1u64 << 59u64 == 0x0800_0000_0000_0000u64 && 1u64 << 3u64 == 0x08u64 && 1u64 << 60u64 == 0x1000_0000_0000_0000u64 && 1u64 << 4u64 == 0x10u64) && (0u64 | 0x0000_0000_0000_FF00u64 | 0x4200_0000_0000_0000u64 | 0x2400_0000_0000_0000u64 | 0x8100_0000_0000_0000u64 | 0x0800_0000_0000_0000u64 | 0x1000_0000_0000_0000u64 == 0xFF00_0000_0000_FF00u64 && 0u64 | 0x00FF_0000_0000_0000u64 | 0x42u64 | 0x24u64 | 0x81u64 | 0x08u64 | 0x10u64 == 0x00FF_0000_0000_00FFu64)) by (bit_vector);
}

} // verus!
