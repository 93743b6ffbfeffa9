//! Compact move encoding.
//!
//! A move packs, into 16 bits: the origin square (bits 0-5), the destination
//! square (bits 6-11), the moving piece type (bits 12-14) and its color
//! (bit 15). Special moves carry their extra data in a [`MoveType`].
use vstd::prelude::*;

verus! {

use crate::bits::{low_index, lemma_low_index_single};
use crate::constants::{WHITE, BLACK};

/// Special move kinds, with the data each needs.
#[derive(Default, Copy, Clone, Debug, Hash, PartialEq, Eq, Structural)]
pub enum MoveType {
    #[default]
    Normal,
    DoublePawnPush,
    /// En passant capture; `captured_square` is the mask of the pawn taken
    /// (the pawn behind the destination square).
    EnPassant { captured_square: u64 },
    /// Castling; the rook moves from `rook_from` to `rook_to`.
    Castling { rook_from: u64, rook_to: u64 },
    /// Promotion; `promoted_piece` is the piece type the pawn becomes.
    Promotion { promoted_piece: u8 },
}

#[derive(Default, Copy, Clone, Debug, Hash, PartialEq, Eq, Structural)]
pub struct Move {
    move_representation: u16,
    move_type: MoveType,
}

/// The 16-bit packing of a move from two square masks, a piece type and a color.
pub open spec fn encode(from_mask: u64, to_mask: u64, piece_type: u8, color: u8) -> u16 {
    (low_index(from_mask) as u16) | ((low_index(to_mask) as u16) << 6u16) | ((piece_type as u16)
        << 12u16) | ((color as u16) << 15u16)
}

/// Origin square index of a packed move.
pub open spec fn from_index_of(r: u16) -> u16 {
    r & 0x3fu16
}

/// Destination square index of a packed move.
pub open spec fn to_index_of(r: u16) -> u16 {
    (r >> 6u16) & 0x3fu16
}

/// Piece type of a packed move.
pub open spec fn piece_type_of(r: u16) -> u16 {
    (r >> 12u16) & 0x7u16
}

/// Color bit of a packed move.
pub open spec fn color_bit_of(r: u16) -> u16 {
    (r >> 15u16) & 1u16
}

/// The fields of a packed move are in range.
pub proof fn lemma_fields_in_range(r: u16)
    ensures
        from_index_of(r) < 64,
        to_index_of(r) < 64,
        piece_type_of(r) < 8,
        color_bit_of(r) < 2,
{
    assert(r & 0x3fu16 < 64 && (r >> 6u16) & 0x3fu16 < 64 && (r >> 12u16) & 0x7u16 < 8 && (r
        >> 15u16) & 1u16 < 2) by (bit_vector);
}

/// A normal move built from two masks with one set bit each, a piece type
/// below 8 and a color bit gives those masks, squares, piece type and color
/// back.
pub proof fn lemma_new_round_trip(from_mask: u64, to_mask: u64, piece_type: u8, color: u8)
    requires
        crate::bits::pop_count(from_mask as nat) == 1,
        crate::bits::pop_count(to_mask as nat) == 1,
        piece_type < 8,
        color < 2,
    ensures
        1u64 << from_index_of(encode(from_mask, to_mask, piece_type, color)) == from_mask,
        1u64 << to_index_of(encode(from_mask, to_mask, piece_type, color)) == to_mask,
        from_index_of(encode(from_mask, to_mask, piece_type, color)) == low_index(from_mask),
        to_index_of(encode(from_mask, to_mask, piece_type, color)) == low_index(to_mask),
        piece_type_of(encode(from_mask, to_mask, piece_type, color)) == piece_type,
        color_bit_of(encode(from_mask, to_mask, piece_type, color)) == color,
{
    crate::bits::lemma_single_bit_is_low_square(from_mask);
    crate::bits::lemma_single_bit_is_low_square(to_mask);
    lemma_encode_decode(low_index(from_mask) as u64, low_index(to_mask) as u64, piece_type, color);
}

/// A move built from the masks of squares `f` and `t`, a piece type and a
/// color decodes back to those squares, that piece type and that color.
pub proof fn lemma_encode_decode(f: u64, t: u64, piece_type: u8, color: u8)
    requires
        f < 64,
        t < 64,
        piece_type < 8,
        color < 2,
    ensures
        from_index_of(encode(1u64 << f, 1u64 << t, piece_type, color)) == f,
        to_index_of(encode(1u64 << f, 1u64 << t, piece_type, color)) == t,
        piece_type_of(encode(1u64 << f, 1u64 << t, piece_type, color)) == piece_type,
        color_bit_of(encode(1u64 << f, 1u64 << t, piece_type, color)) == color,
{
    lemma_low_index_single(f);
    lemma_low_index_single(t);
    let r = encode(1u64 << f, 1u64 << t, piece_type, color);
    assert(r == (f as u16) | ((t as u16) << 6u16) | ((piece_type as u16) << 12u16) | ((
    color as u16) << 15u16));
    assert(f < 64 && t < 64 && piece_type < 8 && color < 2 && r == (f as u16) | ((t as u16) << 6u16)
        | ((piece_type as u16) << 12u16) | ((color as u16) << 15u16) ==> r & 0x3fu16 == f && (r
        >> 6u16) & 0x3fu16 == t && (r >> 12u16) & 0x7u16 == piece_type && (r >> 15u16) & 1u16
        == color) by (bit_vector);
}

/// The piece type and color bits of a packed move do not depend on its
/// origin when the destination is a square of the board.
pub proof fn lemma_encode_piece_color(from_mask: u64, to_mask: u64, piece_type: u8, color: u8)
    requires
        to_mask != 0,
        piece_type < 8,
        color < 2,
    ensures
        piece_type_of(encode(from_mask, to_mask, piece_type, color)) == piece_type,
        color_bit_of(encode(from_mask, to_mask, piece_type, color)) == color,
{
    crate::bits::lemma_low_index(to_mask);
    vstd::std_specs::bits::axiom_u64_trailing_zeros(from_mask);
    let tf = low_index(from_mask);
    let tt = low_index(to_mask);
    let r = encode(from_mask, to_mask, piece_type, color);
    assert(r == (tf as u16) | ((tt as u16) << 6u16) | ((piece_type as u16) << 12u16) | ((color as u16)
        << 15u16));
    assert(tf <= 64 && tt < 64 && piece_type < 8 && color < 2 && r == (tf as u16) | ((tt as u16)
        << 6u16) | ((piece_type as u16) << 12u16) | ((color as u16) << 15u16) ==> (r >> 12u16)
        & 0x7u16 == piece_type && (r >> 15u16) & 1u16 == color) by (bit_vector);
}

/// The move with the packed representation and special data of `v`.
pub closed spec fn move_of(v: (u16, MoveType)) -> Move {
    Move { move_representation: v.0, move_type: v.1 }
}

/// A move is the move of its view, and the move of a view has that view.
pub proof fn lemma_move_of(m: Move, v: (u16, MoveType))
    ensures
        move_of(m@) == m,
        move_of(v)@ == v,
{
}

impl View for Move {
    /// The packed representation and the special move data.
    type V = (u16, MoveType);

    closed spec fn view(&self) -> (u16, MoveType) {
        (self.move_representation, self.move_type)
    }
}

impl Move {
    /// A normal move.
    pub fn new(from_mask: u64, to_mask: u64, piece_type: u8, color: u8) -> (r: Move)
        ensures
            r@ == (encode(from_mask, to_mask, piece_type, color), MoveType::Normal),
    {
        let move_representation = (from_mask.trailing_zeros() as u16) | ((to_mask.trailing_zeros()
            as u16) << 6u16) | ((piece_type as u16) << 12u16) | ((color as u16) << 15u16);
        Move { move_representation, move_type: MoveType::Normal }
    }

    /// A pawn push of two squares.
    pub fn double_pawn_push(from_mask: u64, to_mask: u64, piece_type: u8, color: u8) -> (r: Move)
        ensures
            r@ == (encode(from_mask, to_mask, piece_type, color), MoveType::DoublePawnPush),
    {
        let move_representation = Move::new(from_mask, to_mask, piece_type, color).move_representation;
        Move { move_representation, move_type: MoveType::DoublePawnPush }
    }

    /// En passant capture; `captured_square` is the mask of the enemy pawn removed.
    pub fn en_passant(
        from_mask: u64,
        to_mask: u64,
        piece_type: u8,
        color: u8,
        captured_square: u64,
    ) -> (r: Move)
        ensures
            r@ == (encode(from_mask, to_mask, piece_type, color), MoveType::EnPassant {
                captured_square,
            }),
    {
        let move_representation = Move::new(from_mask, to_mask, piece_type, color).move_representation;
        Move { move_representation, move_type: MoveType::EnPassant { captured_square } }
    }

    /// Castling: the king moves from `from_mask` to `to_mask`, the rook from
    /// `rook_from` to `rook_to`.
    pub fn castling(
        from_mask: u64,
        to_mask: u64,
        piece_type: u8,
        color: u8,
        rook_from: u64,
        rook_to: u64,
    ) -> (r: Move)
        ensures
            r@ == (encode(from_mask, to_mask, piece_type, color), MoveType::Castling {
                rook_from,
                rook_to,
            }),
    {
        let move_representation = Move::new(from_mask, to_mask, piece_type, color).move_representation;
        Move { move_representation, move_type: MoveType::Castling { rook_from, rook_to } }
    }

    /// A pawn promotion to `promoted_piece`.
    pub fn promotion(
        from_mask: u64,
        to_mask: u64,
        piece_type: u8,
        color: u8,
        promoted_piece: u8,
    ) -> (r: Move)
        ensures
            r@ == (encode(from_mask, to_mask, piece_type, color), MoveType::Promotion {
                promoted_piece,
            }),
    {
        let move_representation = Move::new(from_mask, to_mask, piece_type, color).move_representation;
        Move { move_representation, move_type: MoveType::Promotion { promoted_piece } }
    }

    pub fn move_type(&self) -> (r: MoveType)
        ensures
            r == self@.1,
    {
        self.move_type
    }

    pub fn is_en_passant(&self) -> (r: bool)
        ensures
            r == (self@.1 is EnPassant),
    {
        match self.move_type {
            MoveType::EnPassant { .. } => true,
            _ => false,
        }
    }

    pub fn is_castling(&self) -> (r: bool)
        ensures
            r == (self@.1 is Castling),
    {
        match self.move_type {
            MoveType::Castling { .. } => true,
            _ => false,
        }
    }

    pub fn get_from_mask(&self) -> (r: u64)
        ensures
            r == 1u64 << from_index_of(self@.0),
            from_index_of(self@.0) < 64,
            crate::bits::pop_count(r as nat) == 1,
    {
        proof {
            lemma_fields_in_range(self@.0);
            crate::bits::lemma_pop_count_single(from_index_of(self@.0) as u64);
        }
        1u64 << (self.move_representation & 0b111111u16)
    }

    pub fn get_to_mask(&self) -> (r: u64)
        ensures
            r == 1u64 << to_index_of(self@.0),
            to_index_of(self@.0) < 64,
            crate::bits::pop_count(r as nat) == 1,
    {
        proof {
            lemma_fields_in_range(self@.0);
            crate::bits::lemma_pop_count_single(to_index_of(self@.0) as u64);
        }
        1u64 << ((self.move_representation >> 6u16) & 0b111111u16)
    }

    pub fn get_piece_type(&self) -> (r: u8)
        ensures
            r as u16 == piece_type_of(self@.0),
    {
        proof {
            lemma_fields_in_range(self@.0);
        }
        ((self.move_representation >> 12u16) & 0b111u16) as u8
    }

    pub fn get_color(&self) -> (r: u8)
        ensures
            r == (if color_bit_of(self@.0) == 1 { WHITE } else { BLACK }),
    {
        if (self.move_representation >> 15u16) & 1u16 == 1u16 {
            WHITE
        } else {
            BLACK
        }
    }

    pub fn get_from_idx(&self) -> (r: u8)
        ensures
            r as u16 == from_index_of(self@.0),
    {
        proof {
            lemma_fields_in_range(self@.0);
        }
        (self.move_representation & 0b111111u16) as u8
    }

    /// The file (0..8) of the origin square.
    pub fn get_from_x(&self) -> (r: u8)
        ensures
            r == from_index_of(self@.0) % 8,
    {
        self.get_from_idx() % 8
    }

    /// The rank (0..8) of the origin square.
    pub fn get_from_y(&self) -> (r: u8)
        ensures
            r == from_index_of(self@.0) / 8,
    {
        self.get_from_idx() / 8
    }

    /// The file (0..8) of the destination square.
    pub fn get_to_x(&self) -> (r: u8)
        ensures
            r == to_index_of(self@.0) % 8,
    {
        self.get_to_idx() % 8
    }

    /// The rank (0..8) of the destination square.
    pub fn get_to_y(&self) -> (r: u8)
        ensures
            r == to_index_of(self@.0) / 8,
    {
        self.get_to_idx() / 8
    }

    pub fn get_to_idx(&self) -> (r: u8)
        ensures
            r as u16 == to_index_of(self@.0),
    {
        proof {
            lemma_fields_in_range(self@.0);
        }
        ((self.move_representation >> 6u16) & 0b111111u16) as u8
    }
}

} // verus!
