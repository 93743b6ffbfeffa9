//! Text pictures of bitboards and boards, for printing.
use vstd::prelude::*;

verus! {

use crate::board_history::requests::{digit_text, digit_str};
use crate::chessboard::{Chessboard, BoardView, piece_at};
use crate::constants::{EMPTY, BLACK};

/// The cells `x < n` of row `y` of a bitboard picture: `|1` for a set
/// square, `|0` otherwise.
pub open spec fn bit_cells(board: u64, y: int, n: int) -> Seq<char>
    decreases n,
{
    if n <= 0 {
        Seq::empty()
    } else {
        bit_cells(board, y, n - 1) + (if board & (1u64 << ((n - 1 + y * 8) as u64)) != 0 {
            "|1"@
        } else {
            "|0"@
        })
    }
}

/// The first `n` rows of a bitboard picture, square 0 first.
pub open spec fn bit_rows(board: u64, n: int) -> Seq<char>
    decreases n,
{
    if n <= 0 {
        Seq::empty()
    } else {
        bit_rows(board, n - 1) + bit_cells(board, n - 1, 8) + "\n"@
    }
}

/// A bitboard as eight rows of eight `|0`/`|1` cells, square 0 first.
pub fn bitboard_text(board: u64) -> (r: String)
    ensures
        r@ == bit_rows(board, 8),
{
    let mut s = String::new();
    let mut y: u64 = 0;
    while y < 8
        invariant
            y <= 8,
            s@ == bit_rows(board, y as int),
        decreases 8 - y,
    {
        let ghost row_start = s@;
        let mut x: u64 = 0;
        while x < 8
            invariant
                x <= 8,
                y < 8,
                s@ == row_start + bit_cells(board, y as int, x as int),
            decreases 8 - x,
        {
            let bit = 1u64 << (x + y * 8);
            if (board & bit) != 0 {
                s.append("|1");
            } else {
                s.append("|0");
            }
            assert(s@ =~= row_start + bit_cells(board, y as int, x + 1));
            x = x + 1;
        }
        s.append("\n");
        assert(s@ =~= bit_rows(board, y + 1));
        y = y + 1;
    }
    s
}

/// One cell of the board picture: blank for an empty square, the piece type
/// number, with `-` for black and a space for white.
pub open spec fn piece_cell(v: BoardView, i: int, j: int) -> Seq<char> {
    let (piece_type, color) = piece_at(v, 1u64 << ((7 - j + (7 - i) * 8) as u64));
    if piece_type == EMPTY {
        "  |"@
    } else if color == BLACK {
        "-"@ + digit_text(piece_type as int) + "|"@
    } else {
        " "@ + digit_text(piece_type as int) + "|"@
    }
}

/// The cells `j < n` of picture row `i`.
pub open spec fn piece_cells(v: BoardView, i: int, n: int) -> Seq<char>
    decreases n,
{
    if n <= 0 {
        Seq::empty()
    } else {
        piece_cells(v, i, n - 1) + piece_cell(v, i, n - 1)
    }
}

/// The first `n` picture rows: rank label `8 - i`, a bar, and the cells from
/// the highest square of the rank down.
pub open spec fn piece_rows(v: BoardView, n: int) -> Seq<char>
    decreases n,
{
    if n <= 0 {
        Seq::empty()
    } else {
        piece_rows(v, n - 1) + digit_text(8 - (n - 1)) + "|"@ + piece_cells(v, n - 1, 8) + "\n"@
    }
}

/// The picture of a board: an empty line, eight rows from the top rank
/// down, and the file letters.
pub open spec fn board_picture(v: BoardView) -> Seq<char> {
    "\n"@ + piece_rows(v, 8) + "   A  B  C  D  E  F  G  H\n"@
}

impl Chessboard {
    /// The board as a picture of its piece type numbers (black marked `-`).
    pub fn board_text(&self) -> (r: String)
        ensures
            r@ == board_picture(self@),
    {
        let ghost v = self@;
        let mut s = String::new();
        s.append("\n");
        let ghost head = "\n"@;
        assert(s@ =~= head + piece_rows(v, 0));
        let mut i: u64 = 0;
        while i < 8
            invariant
                i <= 8,
                v == self@,
                s@ == head + piece_rows(v, i as int),
            decreases 8 - i,
        {
            s.append(digit_str((8 - i) as u32));
            s.append("|");
            let ghost row_start = head + piece_rows(v, i as int) + digit_text(8 - i) + "|"@;
            assert(s@ =~= row_start + piece_cells(v, i as int, 0));
            let mut j: u64 = 0;
            while j < 8
                invariant
                    i < 8,
                    j <= 8,
                    v == self@,
                    s@ == row_start + piece_cells(v, i as int, j as int),
                decreases 8 - j,
            {
                let (piece_type, color) = self.get_piece_at(1u64 << (7 - j + (7 - i) * 8));
                proof {
                    crate::chessboard::lemma_piece_at_kind(v, 1u64 << ((7 - j + (7 - i) * 8) as u64), 1);
                }
                if piece_type == EMPTY {
                    s.append("  |");
                } else if color == BLACK {
                    s.append("-");
                    s.append(digit_str(piece_type as u32));
                    s.append("|");
                } else {
                    s.append(" ");
                    s.append(digit_str(piece_type as u32));
                    s.append("|");
                }
                assert(s@ =~= row_start + piece_cells(v, i as int, j + 1));
                j = j + 1;
            }
            s.append("\n");
            assert(s@ =~= head + piece_rows(v, i + 1));
            i = i + 1;
        }
        s.append("   A  B  C  D  E  F  G  H\n");
        assert(s@ =~= board_picture(v));
        s
    }
}

} // verus!
