//! The board with a history stack: twelve piece bitboards, the occupancy of
//! each side, a byte of castling and en passant flags, and the positions
//! before each move played, so that moves can be taken back.
use vstd::prelude::*;

verus! {

use crate::bits::{low_index, lemma_mask_identities};
use crate::board_history::mask_move::Move;
use crate::constants::{EMPTY, PAWN, KNIGHT, BISHOP, ROOK, QUEEN, KING};

/// White.
pub const WHITE: i8 = 1;
/// Black.
pub const BLACK: i8 = -1;
/// No side.
pub const NONE: i8 = 0;

/// Castling flags set and no en passant square.
pub const START_FLAGS: u8 = 0b1111_0000u8;

/// Whether `c` is a side (white or black).
pub open spec fn is_side(c: i8) -> bool {
    c == WHITE || c == BLACK
}

/// Whether `p` is a piece kind (pawn 1 to king 6).
pub open spec fn is_kind(p: u8) -> bool {
    PAWN <= p <= KING
}

/// The slot of a piece kind and side: 0-5 white, 6-11 black.
pub open spec fn slot(piece: u8, color: i8) -> int {
    if color == WHITE {
        piece - 1
    } else {
        piece + 5
    }
}

/// One position: bitboards, occupancies and flags.
#[derive(Clone, Copy, Debug)]
pub struct Position {
    pieces: [u64; 12],
    white_pieces: u64,
    black_pieces: u64,
    castling_en_passant: u8,
}

/// The content of a position.
pub ghost struct PositionView {
    pub pieces: Seq<u64>,
    pub white: u64,
    pub black: u64,
    pub flags: u8,
}

impl View for Position {
    type V = PositionView;

    closed spec fn view(&self) -> PositionView {
        PositionView {
            pieces: self.pieces@,
            white: self.white_pieces,
            black: self.black_pieces,
            flags: self.castling_en_passant,
        }
    }
}

/// A board: the current position and the positions before each move.
pub struct Chessboard {
    pieces: [u64; 12],
    white_pieces: u64,
    black_pieces: u64,
    castling_en_passant: u8,
    history: Vec<Position>,
}

/// The content of a board.
pub ghost struct ChessboardView {
    pub current: PositionView,
    pub history: Seq<PositionView>,
}

impl View for Chessboard {
    type V = ChessboardView;

    closed spec fn view(&self) -> ChessboardView {
        ChessboardView {
            current: PositionView {
                pieces: self.pieces@,
                white: self.white_pieces,
                black: self.black_pieces,
                flags: self.castling_en_passant,
            },
            history: self.history@.map_values(|p: Position| p@),
        }
    }
}

/// One step of a position key: XOR in `x`, then multiply by the 64-bit FNV
/// prime, modulo 2^64.
pub open spec fn key_step(h: u64, x: u64) -> u64 {
    (h ^ x).wrapping_mul(0x0000_0100_0000_01B3u64)
}

/// The first `n` bitboards of a position folded into the FNV offset basis.
pub open spec fn key_fold(p: PositionView, n: int) -> u64
    decreases n,
{
    if n <= 0 {
        0xCBF2_9CE4_8422_2325u64
    } else {
        key_step(key_fold(p, n - 1), p.pieces[n - 1])
    }
}

/// The key under which a search table files a position: its twelve
/// bitboards, then its two occupancies, then its flags, folded in turn.
pub open spec fn key_of(p: PositionView) -> u64 {
    key_step(key_step(key_step(key_fold(p, 12), p.white), p.black), p.flags as u64)
}

/// The bitboard of a kind and side.
pub open spec fn board_of(p: PositionView, piece: u8, color: i8) -> u64 {
    p.pieces[slot(piece, color)]
}

/// The starting position of this board: white pawns on bits 8-15 and the
/// other white pieces on bits 56-63, black pawns on bits 48-55 and the other
/// black pieces on bits 0-7; all castling flags set.
pub open spec fn start_position() -> PositionView {
    PositionView {
        pieces: seq![
            0x0000_0000_0000_FF00u64,
            0x4200_0000_0000_0000u64,
            0x2400_0000_0000_0000u64,
            0x8100_0000_0000_0000u64,
            0x0800_0000_0000_0000u64,
            0x1000_0000_0000_0000u64,
            0x00FF_0000_0000_0000u64,
            0x0000_0000_0000_0042u64,
            0x0000_0000_0000_0024u64,
            0x0000_0000_0000_0081u64,
            0x0000_0000_0000_0008u64,
            0x0000_0000_0000_0010u64,
        ],
        white: 0xFF00_0000_0000_FF00u64,
        black: 0x00FF_0000_0000_00FFu64,
        flags: START_FLAGS,
    }
}

/// The kind and side on square `sq`, searching kinds from `piece` up to the
/// king, white before black; `(EMPTY, NONE)` when none is there.
pub open spec fn piece_on_from(p: PositionView, sq: u64, piece: u8) -> (u8, i8)
    decreases 7 - piece,
{
    if piece < PAWN || piece > KING {
        (EMPTY, NONE)
    } else if board_of(p, piece, WHITE) & (1u64 << sq) != 0 {
        (piece, WHITE)
    } else if board_of(p, piece, BLACK) & (1u64 << sq) != 0 {
        (piece, BLACK)
    } else {
        piece_on_from(p, sq, (piece + 1) as u8)
    }
}

/// The kind and side on square `sq` (0..64): the first bitboard from pawn
/// to king, white before black, that holds it; `(EMPTY, NONE)` if none.
pub open spec fn piece_on(p: PositionView, sq: u64) -> (u8, i8) {
    piece_on_from(p, sq, PAWN)
}

/// A piece found on a square has a kind and a side.
proof fn lemma_piece_on_from(p: PositionView, sq: u64, piece: u8)
    ensures
        piece_on_from(p, sq, piece).0 == EMPTY <==> piece_on_from(p, sq, piece).1 == NONE,
        piece_on_from(p, sq, piece).0 != EMPTY ==> is_kind(piece_on_from(p, sq, piece).0) && is_side(
            piece_on_from(p, sq, piece).1,
        ),
    decreases 7 - piece,
{
    if PAWN <= piece <= KING {
        lemma_piece_on_from(p, sq, (piece + 1) as u8);
    }
}

/// The position after a piece of `piece` and `color` goes from `from` to
/// `to`: every bitboard loses `to`, the piece's bitboard loses `from` and
/// gains `to`, and the occupancy that holds `from` (white's looked at first)
/// moves from `from` to `to`. The occupancy of a captured piece is left as
/// it was.
pub open spec fn moved(p: PositionView, piece: u8, color: i8, from: u64, to: u64) -> PositionView {
    let cleared = Seq::new(
        12,
        |i: int|
            if p.pieces[i] & to != 0 {
                p.pieces[i] & !to
            } else {
                p.pieces[i]
            },
    );
    let s = slot(piece, color);
    PositionView {
        pieces: cleared.update(s, (cleared[s] & !from) | to),
        white: if p.white & from != 0 {
            (p.white & !from) | to
        } else {
            p.white
        },
        black: if p.white & from == 0 {
            (p.black & !from) | to
        } else {
            p.black
        },
        flags: p.flags,
    }
}

/// Whether `mv` can be played on `p`: its origin mask is not empty, a piece
/// stands on its lowest square, and a side's occupancy holds the origin.
pub open spec fn can_play(p: PositionView, mv: (u64, u64)) -> bool {
    &&& mv.0 != 0
    &&& piece_on(p, low_index(mv.0) as u64).0 != EMPTY
    &&& (p.white | p.black) & mv.0 != 0
}

/// The board after `mv`: the current position is pushed on the history and
/// the piece on the origin's lowest square moves.
pub open spec fn after_make(b: ChessboardView, mv: (u64, u64)) -> ChessboardView {
    let (piece, color) = piece_on(b.current, low_index(mv.0) as u64);
    ChessboardView {
        current: moved(b.current, piece, color, mv.0, mv.1),
        history: b.history.push(b.current),
    }
}

/// The board after taking back a move: the last saved position comes back
/// and leaves the history; with no history nothing changes.
pub open spec fn after_undo(b: ChessboardView) -> ChessboardView {
    if b.history.len() == 0 {
        b
    } else {
        ChessboardView { current: b.history.last(), history: b.history.drop_last() }
    }
}

/// Taking back a move restores the board as it was before the move, its
/// history included; with no history, taking back changes nothing.
pub proof fn lemma_undo_make(b: ChessboardView, mv: (u64, u64))
    ensures
        after_undo(after_make(b, mv)) == b,
        b.history.len() == 0 ==> after_undo(b) == b,
{
    assert(after_make(b, mv).history.drop_last() =~= b.history);
}

/// The name of a cell of the board listing.
pub open spec fn cell_name(piece: u8, color: i8) -> Seq<char> {
    let side = if color == WHITE {
        "white"@
    } else if color == BLACK {
        "black"@
    } else {
        "empty"@
    };
    if piece == PAWN {
        side + "_pawn"@
    } else if piece == KNIGHT {
        side + "_knight"@
    } else if piece == BISHOP {
        side + "_bishop"@
    } else if piece == ROOK {
        side + "_rook"@
    } else if piece == QUEEN {
        side + "_queen"@
    } else if piece == KING {
        side + "_king"@
    } else if piece == EMPTY {
        "empty"@
    } else {
        "invalid"@
    }
}

/// One cell: square `rank * 8 + file`, quoted, with a separator unless it
/// is the last file.
pub open spec fn listing_cell(p: PositionView, rank: int, file: int) -> Seq<char> {
    let (piece, color) = piece_on(p, (rank * 8 + file) as u64);
    "\""@ + cell_name(piece, color) + "\""@ + (if file < 7 {
        ", "@
    } else {
        Seq::empty()
    })
}

/// The first `n` cells of a rank.
pub open spec fn listing_cells(p: PositionView, rank: int, n: int) -> Seq<char>
    decreases n,
{
    if n <= 0 {
        Seq::empty()
    } else {
        listing_cells(p, rank, n - 1) + listing_cell(p, rank, n - 1)
    }
}

/// The line of a rank; every rank line but the one of rank 0 ends in a comma.
pub open spec fn listing_row(p: PositionView, rank: int) -> Seq<char> {
    "\t\t["@ + listing_cells(p, rank, 8) + "]"@ + (if rank > 0 {
        ",\n"@
    } else {
        "\n"@
    })
}

/// The lines of ranks 7 down to `7 - n + 1`.
pub open spec fn listing_rows(p: PositionView, n: int) -> Seq<char>
    decreases n,
{
    if n <= 0 {
        Seq::empty()
    } else {
        listing_rows(p, n - 1) + listing_row(p, 8 - n)
    }
}

/// The listing: an opening brace, the `board` key, and one line per rank
/// from rank 7 down to rank 0. The array and the object are left open.
pub open spec fn listing(p: PositionView) -> Seq<char> {
    "{\n"@ + "\t\"board\": [\n"@ + listing_rows(p, 8)
}

/// The name of a listing cell.
fn cell_name_str(piece: u8, color: i8) -> (r: String)
    ensures
        r@ == cell_name(piece, color),
{
    let side = if color == WHITE {
        "white"
    } else if color == BLACK {
        "black"
    } else {
        "empty"
    };
    let mut s = String::new();
    if piece == PAWN {
        s.append(side);
        s.append("_pawn");
    } else if piece == KNIGHT {
        s.append(side);
        s.append("_knight");
    } else if piece == BISHOP {
        s.append(side);
        s.append("_bishop");
    } else if piece == ROOK {
        s.append(side);
        s.append("_rook");
    } else if piece == QUEEN {
        s.append(side);
        s.append("_queen");
    } else if piece == KING {
        s.append(side);
        s.append("_king");
    } else if piece == EMPTY {
        s.append("empty");
    } else {
        s.append("invalid");
    }
    assert(s@ =~= cell_name(piece, color));
    s
}

impl Clone for Chessboard {
    /// The same position and the same history.
    fn clone(&self) -> (r: Self)
        ensures
            r@ == self@,
    {
        let history = self.history.clone();
        proof {
            assert forall|i: int| 0 <= i < history@.len() implies #[trigger] history@[i] == self.history@[i] by {
                assert(vstd::pervasive::cloned::<Position>(self.history@[i], history@[i]));
            }
            assert(history@ =~= self.history@);
        }
        Chessboard {
            pieces: self.pieces,
            white_pieces: self.white_pieces,
            black_pieces: self.black_pieces,
            castling_en_passant: self.castling_en_passant,
            history,
        }
    }
}

impl Default for Chessboard {
    /// Empty bitboards, no flags, no history.
    fn default() -> (r: Self)
        ensures
            r@.current.pieces == Seq::new(12, |i: int| 0u64),
            r@.current.white == 0,
            r@.current.black == 0,
            r@.current.flags == 0,
            r@.history == Seq::<PositionView>::empty(),
    {
        let r = Chessboard {
            pieces: [0u64; 12],
            white_pieces: 0,
            black_pieces: 0,
            castling_en_passant: 0,
            history: Vec::new(),
        };
        assert(r@.current.pieces =~= Seq::new(12, |i: int| 0u64));
        assert(r@.history =~= Seq::<PositionView>::empty());
        r
    }
}

impl Chessboard {
    pub fn get_piece_mask(&self, piece: u8, color: i8) -> (r: u64)
        requires
            is_kind(piece),
            is_side(color),
        ensures
            r == board_of(self@.current, piece, color),
    {
        self.pieces[self.piece_index(piece, color).unwrap()]
    }

    /// Sets the bitboard of a kind and side; the occupancies are left as
    /// they are.
    pub fn set_piece_mask(&mut self, piece: u8, color: i8, mask: u64)
        requires
            is_kind(piece),
            is_side(color),
        ensures
            final(self)@ == (ChessboardView {
                current: PositionView {
                    pieces: old(self)@.current.pieces.update(slot(piece, color), mask),
                    ..old(self)@.current
                },
                ..old(self)@
            }),
    {
        let i = self.piece_index(piece, color).unwrap();
        self.pieces[i] = mask;
        assert(self@.current.pieces =~= old(self)@.current.pieces.update(slot(piece, color), mask));
    }

    /// The slot of a kind (1..=6) and side: kinds 1-6 of white at 0-5, of
    /// black at 6-11. Any other kind or side has no slot.
    pub fn piece_index(&self, piece: u8, color: i8) -> (r: Option<usize>)
        requires
            is_kind(piece),
            is_side(color),
        ensures
            r == Some(slot(piece, color) as usize),
    {
        if color == WHITE {
            Some((piece - 1) as usize)
        } else {
            Some((piece + 5) as usize)
        }
    }

    pub fn get_white_pieces(&self) -> (r: u64)
        ensures
            r == self@.current.white,
    {
        self.white_pieces
    }

    pub fn set_white_pieces(&mut self, white_pieces: u64)
        ensures
            final(self)@ == (ChessboardView {
                current: PositionView { white: white_pieces, ..old(self)@.current },
                ..old(self)@
            }),
    {
        self.white_pieces = white_pieces;
    }

    pub fn get_black_pieces(&self) -> (r: u64)
        ensures
            r == self@.current.black,
    {
        self.black_pieces
    }

    pub fn set_black_pieces(&mut self, black_pieces: u64)
        ensures
            final(self)@ == (ChessboardView {
                current: PositionView { black: black_pieces, ..old(self)@.current },
                ..old(self)@
            }),
    {
        self.black_pieces = black_pieces;
    }

    pub fn get_castling_en_passant(&self) -> (r: u8)
        ensures
            r == self@.current.flags,
    {
        self.castling_en_passant
    }

    pub fn set_castling_en_passant(&mut self, castling_en_passant: u8)
        ensures
            final(self)@ == (ChessboardView {
                current: PositionView { flags: castling_en_passant, ..old(self)@.current },
                ..old(self)@
            }),
    {
        self.castling_en_passant = castling_en_passant;
    }

    /// The positions before each move played, oldest first.
    pub fn get_history(&self) -> (r: &Vec<Position>)
        ensures
            r@.map_values(|p: Position| p@) == self@.history,
    {
        &self.history
    }

    /// Puts the pieces in their starting squares, sets every castling flag
    /// and clears the history.
    pub fn init(&mut self)
        ensures
            final(self)@ == (ChessboardView { current: start_position(), history: Seq::empty() }),
    {
        self.pieces = [0u64; 12];
        self.white_pieces = 0;
        self.black_pieces = 0;
        self.history = Vec::new();
        self.place(PAWN, WHITE, 0x0000_0000_0000_FF00u64);
        self.place(PAWN, BLACK, 0x00FF_0000_0000_0000u64);
        self.place(KNIGHT, WHITE, (1u64 << 57u64) | (1u64 << 62u64));
        self.place(KNIGHT, BLACK, (1u64 << 1u64) | (1u64 << 6u64));
        self.place(BISHOP, WHITE, (1u64 << 58u64) | (1u64 << 61u64));
        self.place(BISHOP, BLACK, (1u64 << 2u64) | (1u64 << 5u64));
        self.place(ROOK, WHITE, (1u64 << 56u64) | (1u64 << 63u64));
        self.place(ROOK, BLACK, 1u64 | (1u64 << 7u64));
        self.place(QUEEN, WHITE, 1u64 << 59u64);
        self.place(QUEEN, BLACK, 1u64 << 3u64);
        self.place(KING, WHITE, 1u64 << 60u64);
        self.place(KING, BLACK, 1u64 << 4u64);
        self.set_castling_en_passant(START_FLAGS);
        proof {
            crate::constants::lemma_board_constants();
        }
        assert((1u64 << 57u64) | (1u64 << 62u64) == 0x4200_0000_0000_0000u64 && (1u64 << 1u64) | (
        1u64 << 6u64) == 0x42u64 && (1u64 << 58u64) | (1u64 << 61u64) == 0x2400_0000_0000_0000u64
            && (1u64 << 2u64) | (1u64 << 5u64) == 0x24u64 && (1u64 << 56u64) | (1u64 << 63u64)
            == 0x8100_0000_0000_0000u64 && 1u64 | (1u64 << 7u64) == 0x81u64 && 1u64 << 59u64
            == 0x0800_0000_0000_0000u64 && 1u64 << 3u64 == 0x08u64 && 1u64 << 60u64
            == 0x1000_0000_0000_0000u64 && 1u64 << 4u64 == 0x10u64);
        proof {
            crate::constants::lemma_board_constants();
        }
        assert(0u64 | 0x0000_0000_0000_FF00u64 | 0x4200_0000_0000_0000u64 | 0x2400_0000_0000_0000u64
            | 0x8100_0000_0000_0000u64 | 0x0800_0000_0000_0000u64 | 0x1000_0000_0000_0000u64
            == 0xFF00_0000_0000_FF00u64 && 0u64 | 0x00FF_0000_0000_0000u64 | 0x42u64 | 0x24u64
            | 0x81u64 | 0x08u64 | 0x10u64 == 0x00FF_0000_0000_00FFu64);
        assert(self@.current.pieces =~= start_position().pieces);
        assert(self@.history =~= Seq::<PositionView>::empty());
    }

    /// Puts `mask` on the bitboard of a kind and side and adds it to the
    /// occupancy of the side.
    fn place(&mut self, piece: u8, color: i8, mask: u64)
        requires
            is_kind(piece),
            is_side(color),
        ensures
            final(self)@.current.pieces == old(self)@.current.pieces.update(slot(piece, color), mask),
            final(self)@.current.white == (if color == WHITE {
                old(self)@.current.white | mask
            } else {
                old(self)@.current.white
            }),
            final(self)@.current.black == (if color == WHITE {
                old(self)@.current.black
            } else {
                old(self)@.current.black | mask
            }),
            final(self)@.current.flags == old(self)@.current.flags,
            final(self)@.history == old(self)@.history,
    {
        self.set_piece_mask(piece, color, mask);
        if color == WHITE {
            self.white_pieces = self.white_pieces | mask;
        } else {
            self.black_pieces = self.black_pieces | mask;
        }
    }

    /// The key of the current position for a search table (see [`key_of`]).
    pub fn get_hash(&self) -> (r: u64)
        ensures
            r == key_of(self@.current),
    {
        let mut h: u64 = 0xCBF2_9CE4_8422_2325u64;
        let mut i: usize = 0;
        while i < 12
            invariant
                i <= 12,
                h == key_fold(self@.current, i as int),
            decreases 12 - i,
        {
            h = (h ^ self.pieces[i]).wrapping_mul(0x0000_0100_0000_01B3u64);
            i = i + 1;
        }
        h = (h ^ self.white_pieces).wrapping_mul(0x0000_0100_0000_01B3u64);
        h = (h ^ self.black_pieces).wrapping_mul(0x0000_0100_0000_01B3u64);
        h = (h ^ (self.castling_en_passant as u64)).wrapping_mul(0x0000_0100_0000_01B3u64);
        h
    }

    /// The kind and side on square `pos` (0..64).
    pub fn get_piece_at(&self, pos: u64) -> (r: (u8, i8))
        requires
            pos < 64,
        ensures
            r == piece_on(self@.current, pos),
    {
        let mask = 1u64 << pos;
        let mut piece: u8 = 1;
        while piece <= 6
            invariant
                1 <= piece <= 7,
                pos < 64,
                mask == 1u64 << pos,
                piece_on(self@.current, pos) == piece_on_from(self@.current, pos, piece),
            decreases 7 - piece,
        {
            if (self.get_piece_mask(piece, WHITE) & mask) != 0 {
                return (piece, WHITE);
            }
            if (self.get_piece_mask(piece, BLACK) & mask) != 0 {
                return (piece, BLACK);
            }
            piece = piece + 1;
        }
        (EMPTY, NONE)
    }

    /// Plays `mv`: the current position is saved on the history, then the
    /// piece standing on the lowest square of the origin mask moves to the
    /// destination mask.
    pub fn make_move(&mut self, mv: Move)
        requires
            can_play(old(self)@.current, mv@),
        ensures
            final(self)@ == after_make(old(self)@, mv@),
    {
        let ghost b0 = self@;
        let snapshot = Position {
            pieces: self.pieces,
            white_pieces: self.white_pieces,
            black_pieces: self.black_pieces,
            castling_en_passant: self.castling_en_passant,
        };
        self.history.push(snapshot);
        assert(self@.history =~= b0.history.push(b0.current));
        let from = mv.get_from_mask();
        let to = mv.get_to_mask();
        let square = from.trailing_zeros() as u64;
        proof {
            crate::bits::lemma_low_index(from);
            lemma_piece_on_from(b0.current, square, PAWN);
        }
        let (piece_type, color) = self.get_piece_at(square);
        self.move_piece(piece_type, color, from, to);
    }

    /// Moves a piece of `piece` and `color` from `from` to `to`, removing
    /// whatever stood on `to`; the occupancy holding `from` follows.
    fn move_piece(&mut self, piece: u8, color: i8, from: u64, to: u64)
        requires
            is_kind(piece),
            is_side(color),
            (old(self)@.current.white | old(self)@.current.black) & from != 0,
        ensures
            final(self)@ == (ChessboardView {
                current: moved(old(self)@.current, piece, color, from, to),
                ..old(self)@
            }),
    {
        let ghost p0 = self@.current;
        let array_index = self.piece_index(piece, color).unwrap();
        let mut p: u8 = 1;
        while p <= 6
            invariant
                1 <= p <= 7,
                self@.history == old(self)@.history,
                self@.current.white == p0.white,
                self@.current.black == p0.black,
                self@.current.flags == p0.flags,
                self@.current.pieces.len() == 12,
                forall|i: int|
                    0 <= i < 12 ==> #[trigger] self@.current.pieces[i] == (if (0 <= i < p - 1 || 6 <= i
                        < p + 5) && p0.pieces[i] & to != 0 {
                        p0.pieces[i] & !to
                    } else {
                        p0.pieces[i]
                    }),
            decreases 7 - p,
        {
            if (self.get_piece_mask(p, WHITE) & to) != 0 {
                self.set_piece_mask(p, WHITE, self.get_piece_mask(p, WHITE) & !to);
            }
            if (self.get_piece_mask(p, BLACK) & to) != 0 {
                self.set_piece_mask(p, BLACK, self.get_piece_mask(p, BLACK) & !to);
            }
            p = p + 1;
        }
        self.pieces[array_index] = self.pieces[array_index] & !from;
        self.pieces[array_index] = self.pieces[array_index] | to;
        if self.white_pieces & from != 0 {
            self.white_pieces = self.white_pieces & !from;
            self.white_pieces = self.white_pieces | to;
        } else {
            let ghost w = p0.white;
            let ghost bl = p0.black;
            assert((w | bl) & from != 0 && w & from == 0 ==> bl & from != 0) by (bit_vector);
            self.black_pieces = self.black_pieces & !from;
            self.black_pieces = self.black_pieces | to;
        }
        assert(self@.current.pieces =~= moved(p0, piece, color, from, to).pieces);
    }

    /// Takes back the last move: the last saved position becomes the
    /// current one and leaves the history. Without history nothing changes.
    pub fn undo_move(&mut self)
        ensures
            final(self)@ == after_undo(old(self)@),
    {
        let ghost h0 = self@.history;
        if let Some(prev) = self.history.pop() {
            self.pieces = prev.pieces;
            self.white_pieces = prev.white_pieces;
            self.black_pieces = prev.black_pieces;
            self.castling_en_passant = prev.castling_en_passant;
            assert(self@.history =~= h0.drop_last());
        }
    }

    /// The board listing: `{`, a `board` key, then one line per rank from
    /// rank 7 down to rank 0 naming the piece on each of its eight squares
    /// (`white_pawn` .. `black_king`, or `empty`). Brackets and brace are not
    /// closed.
    pub fn convert_to_json(&mut self) -> (r: String)
        ensures
            r@ == listing(old(self)@.current),
            final(self)@ == old(self)@,
    {
        let ghost p = self@.current;
        let mut json = String::new();
        json.append("{\n");
        json.append("\t\"board\": [\n");
        let ghost head = "{\n"@ + "\t\"board\": [\n"@;
        assert(json@ =~= head + listing_rows(p, 0));
        let mut done: u64 = 0;
        while done < 8
            invariant
                done <= 8,
                self@ == old(self)@,
                p == self@.current,
                json@ == head + listing_rows(p, done as int),
            decreases 8 - done,
        {
            let rank = 7 - done;
            json.append("\t\t[");
            let ghost row_start = head + listing_rows(p, done as int) + "\t\t["@;
            assert(json@ =~= row_start + listing_cells(p, rank as int, 0));
            let mut file: u64 = 0;
            while file < 8
                invariant
                    rank < 8,
                    file <= 8,
                    self@ == old(self)@,
                    p == self@.current,
                    json@ == row_start + listing_cells(p, rank as int, file as int),
                decreases 8 - file,
            {
                let square = rank * 8 + file;
                let (piece, color) = self.get_piece_at(square);
                let name = cell_name_str(piece, color);
                json.append("\"");
                json.append(name.as_str());
                json.append("\"");
                if file < 7 {
                    json.append(", ");
                }
                assert(json@ =~= row_start + listing_cells(p, rank as int, file + 1));
                file = file + 1;
            }
            json.append("]");
            if rank > 0 {
                json.append(",\n");
            } else {
                json.append("\n");
            }
            assert(json@ =~= head + listing_rows(p, done + 1));
            done = done + 1;
        }
        assert(json@ =~= listing(p));
        json
    }
}

} // verus!
