//! A move given by two masks: the squares it leaves and reaches, each as a
//! bitboard with (normally) one bit set.
use vstd::prelude::*;

verus! {

use crate::bits::low_index;

#[derive(Default, Clone, Copy, Debug, Hash, PartialEq, Eq, Structural)]
pub struct Move {
    from_mask: u64,
    to_mask: u64,
}

impl View for Move {
    type V = (u64, u64);

    closed spec fn view(&self) -> (u64, u64) {
        (self.from_mask, self.to_mask)
    }
}

/// The move with the origin and destination masks of `v`.
pub closed spec fn move_of(v: (u64, u64)) -> Move {
    Move { from_mask: v.0, to_mask: v.1 }
}

/// A move is the move of its two masks, and the move of two masks has them.
pub proof fn lemma_move_of(m: Move, v: (u64, u64))
    ensures
        move_of(m@) == m,
        move_of(v)@ == v,
{
}

/// The file of the lowest set square of a mask (0 for an empty mask).
pub open spec fn file_of(mask: u64) -> u8 {
    (low_index(mask) % 8) as u8
}

/// The rank of the lowest set square of a mask (8 for an empty mask).
pub open spec fn rank_of(mask: u64) -> u8 {
    (low_index(mask) / 8) as u8
}

impl Move {
    pub fn new(from_mask: u64, to_mask: u64) -> (r: Move)
        ensures
            r@ == (from_mask, to_mask),
    {
        Move { from_mask, to_mask }
    }

    pub fn get_from_mask(&self) -> (r: u64)
        ensures
            r == self@.0,
    {
        self.from_mask
    }

    pub fn get_to_mask(&self) -> (r: u64)
        ensures
            r == self@.1,
    {
        self.to_mask
    }

    pub fn get_from_x(&self) -> (r: u8)
        ensures
            r == file_of(self@.0),
    {
        let idx = self.from_mask.trailing_zeros() as u8;
        idx % 8
    }

    pub fn get_from_y(&self) -> (r: u8)
        ensures
            r == rank_of(self@.0),
    {
        let idx = self.from_mask.trailing_zeros() as u8;
        idx / 8
    }

    pub fn get_to_x(&self) -> (r: u8)
        ensures
            r == file_of(self@.1),
    {
        let idx = self.to_mask.trailing_zeros() as u8;
        idx % 8
    }

    pub fn get_to_y(&self) -> (r: u8)
        ensures
            r == rank_of(self@.1),
    {
        let idx = self.to_mask.trailing_zeros() as u8;
        idx / 8
    }

    /// The move between the squares on file `from_x`, rank `from_y` and on
    /// file `to_x`, rank `to_y` (square index `x + 8 * y`, below 64).
    pub fn new_from_coordinates(from_x: u8, from_y: u8, to_x: u8, to_y: u8) -> (r: Move)
        requires
            from_x + from_y * 8 < 64,
            to_x + to_y * 8 < 64,
        ensures
            r@ == (1u64 << ((from_x + from_y * 8) as u64), 1u64 << ((to_x + to_y * 8) as u64)),
    {
        let from_mask = 1u64 << (from_x + from_y * 8);
        let to_mask = 1u64 << (to_x + to_y * 8);
        Move { from_mask, to_mask }
    }
}

/// A move made from coordinates gives its coordinates back.
pub proof fn lemma_coordinates_round_trip(from_x: u8, from_y: u8, to_x: u8, to_y: u8)
    requires
        from_x < 8,
        from_y < 8,
        to_x < 8,
        to_y < 8,
    ensures
        file_of(1u64 << ((from_x + from_y * 8) as u64)) == from_x,
        rank_of(1u64 << ((from_x + from_y * 8) as u64)) == from_y,
        file_of(1u64 << ((to_x + to_y * 8) as u64)) == to_x,
        rank_of(1u64 << ((to_x + to_y * 8) as u64)) == to_y,
{
    crate::bits::lemma_low_index_single((from_x + from_y * 8) as u64);
    crate::bits::lemma_low_index_single((to_x + to_y * 8) as u64);
}

} // verus!
