//! The board: one bitboard per piece type and color, the occupancy of each
//! color, castling rights and the en passant file.
use vstd::prelude::*;

verus! {

use crate::bits::{low_index, lemma_mask_identities};
use crate::chess_move::{Move, MoveType, from_index_of, to_index_of};
use crate::constants::{
    EMPTY,
    PAWN,
    KNIGHT,
    BISHOP,
    ROOK,
    QUEEN,
    KING,
    WHITE,
    BLACK,
    NONE,
    WHITE_KINGSIDE_CASTLE,
    WHITE_QUEENSIDE_CASTLE,
    BLACK_KINGSIDE_CASTLE,
    BLACK_QUEENSIDE_CASTLE,
    is_piece_type,
    is_color,
};

#[derive(Default, Debug, Clone, Copy)]
pub struct Chessboard {
    /// One bitboard per piece: slots 0-5 white, 6-11 black, in the order
    /// pawn, knight, bishop, rook, queen, king.
    pieces: [u64; 12],
    /// All white pieces.
    white_pieces: u64,
    /// All black pieces.
    black_pieces: u64,
    /// Castling rights flags (see the `*_CASTLE` constants).
    castling_rights: u8,
    /// En passant target file, 1-based (1..=8), or 0 for none.
    en_passant: u8,
}

/// The mathematical content of a board.
pub ghost struct BoardView {
    pub pieces: Seq<u64>,
    pub white: u64,
    pub black: u64,
    pub castling: u8,
    pub en_passant: u8,
}

impl View for Chessboard {
    type V = BoardView;

    closed spec fn view(&self) -> BoardView {
        BoardView {
            pieces: self.pieces@,
            white: self.white_pieces,
            black: self.black_pieces,
            castling: self.castling_rights,
            en_passant: self.en_passant,
        }
    }
}

/// The slot (0..12) of the bitboard of a piece type and color.
pub open spec fn piece_slot(piece: u8, color: u8) -> int {
    if color == WHITE {
        piece - 1
    } else {
        piece + 5
    }
}

/// The bitboard of a piece type and color in a board view.
pub open spec fn mask_of(v: BoardView, piece: u8, color: u8) -> u64 {
    v.pieces[piece_slot(piece, color)]
}

/// A board view whose bitboard of a piece type and color is replaced.
pub open spec fn with_mask(v: BoardView, piece: u8, color: u8, mask: u64) -> BoardView {
    BoardView { pieces: v.pieces.update(piece_slot(piece, color), mask), ..v }
}

/// The standard starting position.
pub open spec fn starting_view() -> BoardView {
    BoardView {
        pieces: seq![
            0x0000_0000_0000_FF00u64,
            0x0000_0000_0000_0042u64,
            0x0000_0000_0000_0024u64,
            0x0000_0000_0000_0081u64,
            0x0000_0000_0000_0010u64,
            0x0000_0000_0000_0008u64,
            0x00FF_0000_0000_0000u64,
            0x4200_0000_0000_0000u64,
            0x2400_0000_0000_0000u64,
            0x8100_0000_0000_0000u64,
            0x1000_0000_0000_0000u64,
            0x0800_0000_0000_0000u64,
        ],
        white: 0x0000_0000_0000_FFFFu64,
        black: 0xFFFF_0000_0000_0000u64,
        castling: 0b1111u8,
        en_passant: 0u8,
    }
}

/// The piece type and color found on `pos`, searching piece types from
/// `piece` to the king, white before black; `(EMPTY, NONE)` if none.
pub open spec fn piece_at_from(v: BoardView, pos: u64, piece: u8) -> (u8, u8)
    decreases 7 - piece,
{
    if piece < PAWN || piece > KING {
        (EMPTY, NONE)
    } else if mask_of(v, piece, WHITE) & pos != 0 {
        (piece, WHITE)
    } else if mask_of(v, piece, BLACK) & pos != 0 {
        (piece, BLACK)
    } else {
        piece_at_from(v, pos, (piece + 1) as u8)
    }
}

/// The piece type and color on `pos`: the first match from pawn to king,
/// white before black; `(EMPTY, NONE)` if no bitboard meets `pos`.
pub open spec fn piece_at(v: BoardView, pos: u64) -> (u8, u8) {
    piece_at_from(v, pos, PAWN)
}

/// The piece type found on a square is empty or a piece type.
pub proof fn lemma_piece_at_kind(v: BoardView, pos: u64, piece: u8)
    ensures
        piece_at_from(v, pos, piece).0 <= KING,
    decreases 7 - piece,
{
    if PAWN <= piece <= KING {
        lemma_piece_at_kind(v, pos, (piece + 1) as u8);
    }
}

/// Whether the bitboard of a piece type and color meets `square`.
pub open spec fn meets(v: BoardView, piece: u8, color: u8, square: u64) -> bool {
    mask_of(v, piece, color) & square != 0
}

/// Whether some bitboard of `color` with a piece type below `bound` meets `square`.
pub open spec fn color_meets_below(v: BoardView, color: u8, square: u64, bound: u8) -> bool {
    exists|p: u8| PAWN <= p < bound && #[trigger] meets(v, p, color, square)
}

/// Whether some bitboard of `color` meets `square`.
pub open spec fn color_meets(v: BoardView, color: u8, square: u64) -> bool {
    color_meets_below(v, color, square, 7)
}

/// The board after `square` is emptied: every bitboard that meets it loses
/// it, and so does the occupancy of each color that had a piece there.
pub open spec fn clear_square_view(v: BoardView, square: u64) -> BoardView {
    BoardView {
        pieces: Seq::new(
            12,
            |i: int|
                if v.pieces[i] & square != 0 {
                    v.pieces[i] & !square
                } else {
                    v.pieces[i]
                },
        ),
        white: if color_meets(v, WHITE, square) {
            v.white & !square
        } else {
            v.white
        },
        black: if color_meets(v, BLACK, square) {
            v.black & !square
        } else {
            v.black
        },
        ..v
    }
}

/// The en passant file recorded after a pawn leaves `from` with a double push.
pub open spec fn en_passant_after(v: BoardView, from: u64, piece_type: u8, color: u8) -> u8 {
    if piece_type == PAWN && (color == WHITE || color == BLACK) {
        ((low_index(from) % 8) + 1) as u8
    } else {
        v.en_passant
    }
}

/// The castling rights after a move from `from` to `to`.
pub open spec fn castling_after(rights: u8, from: u64, to: u64) -> u8 {
    rights & !rights_lost(from, to)
}

/// The castling rights that a move from `from` to `to` takes away: both
/// rights of a king that moves, and the right of a rook that moves or is
/// captured on its corner.
pub open spec fn rights_lost(from: u64, to: u64) -> u8 {
    (if from & (1u64 << 3u64) != 0 {
        WHITE_QUEENSIDE_CASTLE | WHITE_KINGSIDE_CASTLE
    } else {
        0u8
    }) | (if from & (1u64 << 59u64) != 0 {
        BLACK_QUEENSIDE_CASTLE | BLACK_KINGSIDE_CASTLE
    } else {
        0u8
    }) | (if from & (1u64 << 7u64) != 0 || to & (1u64 << 7u64) != 0 {
        WHITE_QUEENSIDE_CASTLE
    } else {
        0u8
    }) | (if from & 1u64 != 0 || to & 1u64 != 0 {
        WHITE_KINGSIDE_CASTLE
    } else {
        0u8
    }) | (if from & (1u64 << 63u64) != 0 || to & (1u64 << 63u64) != 0 {
        BLACK_QUEENSIDE_CASTLE
    } else {
        0u8
    }) | (if from & (1u64 << 56u64) != 0 || to & (1u64 << 56u64) != 0 {
        BLACK_KINGSIDE_CASTLE
    } else {
        0u8
    })
}

/// Castling rights are only ever lost: after a move no right is held that
/// was not held before, and no bit beyond the four rights appears.
pub proof fn lemma_castling_only_lost(rights: u8, from: u64, to: u64)
    ensures
        castling_after(rights, from, to) & !rights == 0,
        rights & !0b1111u8 == 0 ==> castling_after(rights, from, to) & !0b1111u8 == 0,
{
    let lost = rights_lost(from, to);
    assert((rights & !lost) & !rights == 0 && (rights & !0b1111u8 == 0 ==> (rights & !lost) & !0b1111u8
        == 0)) by (bit_vector);
}

/// The castling rights after the moves `moves` (origin and destination
/// squares), one after another.
pub open spec fn castling_after_all(rights: u8, moves: Seq<(u64, u64)>) -> u8
    decreases moves.len(),
{
    if moves.len() == 0 {
        rights
    } else {
        castling_after_all(castling_after(rights, moves[0].0, moves[0].1), moves.drop_first())
    }
}

/// Over any sequence of moves, castling rights are only lost: the rights at
/// the end are among those at the start. Playing a piece (`move_piece`)
/// leaves the rights as they are.
pub proof fn lemma_castling_only_lost_over_moves(rights: u8, moves: Seq<(u64, u64)>)
    ensures
        castling_after_all(rights, moves) & !rights == 0,
        rights & !0b1111u8 == 0 ==> castling_after_all(rights, moves) & !0b1111u8 == 0,
        forall|v: BoardView, piece: u8, color: u8, mv: (u16, MoveType)|
            #[trigger] move_piece_view(v, piece, color, mv).castling == v.castling,
    decreases moves.len(),
{
    if moves.len() > 0 {
        let r1 = castling_after(rights, moves[0].0, moves[0].1);
        lemma_castling_only_lost(rights, moves[0].0, moves[0].1);
        lemma_castling_only_lost_over_moves(r1, moves.drop_first());
        let r2 = castling_after_all(r1, moves.drop_first());
        assert(r2 & !r1 == 0 && r1 & !rights == 0 ==> r2 & !rights == 0) by (bit_vector);
    } else {
        assert(rights & !rights == 0) by (bit_vector);
    }
}

/// A board has twelve bitboards.
pub proof fn lemma_twelve_bitboards(b: &Chessboard)
    ensures
        b@.pieces.len() == 12,
{
}

/// Reading a bitboard after writing it gives what was written, and the
/// other bitboards are as they were.
pub proof fn lemma_mask_after_set(
    v: BoardView,
    piece: u8,
    color: u8,
    mask: u64,
    other_piece: u8,
    other_color: u8,
)
    requires
        v.pieces.len() == 12,
        is_piece_type(piece),
        is_color(color),
        is_piece_type(other_piece),
        is_color(other_color),
    ensures
        mask_of(with_mask(v, piece, color, mask), piece, color) == mask,
        (other_piece, other_color) != (piece, color) ==> mask_of(
            with_mask(v, piece, color, mask),
            other_piece,
            other_color,
        ) == mask_of(v, other_piece, other_color),
{
}

/// A bitboard moved from `from` to `to`.
pub open spec fn relocate(mask: u64, from: u64, to: u64) -> u64 {
    (mask & !from) | to
}

/// The occupancy of `color` relocated from `from` to `to`.
pub open spec fn relocate_color(v: BoardView, color: u8, from: u64, to: u64) -> BoardView {
    if color == WHITE {
        BoardView { white: relocate(v.white, from, to), ..v }
    } else {
        BoardView { black: relocate(v.black, from, to), ..v }
    }
}

/// The board after a move of `piece` of `color` as `move_piece` performs it.
pub open spec fn move_piece_view(v0: BoardView, piece: u8, color: u8, mv: (u16, MoveType)) -> BoardView {
    let from = 1u64 << from_index_of(mv.0);
    let to = 1u64 << to_index_of(mv.0);
    let v1 = clear_square_view(BoardView { en_passant: 0u8, ..v0 }, to);
    let slot = piece_slot(piece, color);
    match mv.1 {
        MoveType::Promotion { promoted_piece } => {
            let v2 = BoardView { pieces: v1.pieces.update(slot, v1.pieces[slot] & !from), ..v1 };
            let pslot = piece_slot(promoted_piece, color);
            let v3 = BoardView { pieces: v2.pieces.update(pslot, v2.pieces[pslot] | to), ..v2 };
            relocate_color(v3, color, from, to)
        },
        _ => {
            let v2 = match mv.1 {
                MoveType::EnPassant { captured_square } => clear_square_view(v1, captured_square),
                MoveType::Castling { rook_from, rook_to } => {
                    let rslot = piece_slot(ROOK, color);
                    relocate_color(
                        BoardView {
                            pieces: v1.pieces.update(rslot, relocate(v1.pieces[rslot], rook_from, rook_to)),
                            ..v1
                        },
                        color,
                        rook_from,
                        rook_to,
                    )
                },
                MoveType::DoublePawnPush => BoardView {
                    en_passant: en_passant_after(v1, from, piece, color),
                    ..v1
                },
                _ => v1,
            };
            relocate_color(
                BoardView { pieces: v2.pieces.update(slot, relocate(v2.pieces[slot], from, to)), ..v2 },
                color,
                from,
                to,
            )
        },
    }
}

/// The name the board listing gives a piece type and color.
pub open spec fn piece_name(piece_type: u8, color: u8) -> Seq<char> {
    if piece_type == PAWN && color == WHITE {
        "white_pawn"@
    } else if piece_type == KNIGHT && color == WHITE {
        "white_knight"@
    } else if piece_type == BISHOP && color == WHITE {
        "white_bishop"@
    } else if piece_type == ROOK && color == WHITE {
        "white_rook"@
    } else if piece_type == QUEEN && color == WHITE {
        "white_queen"@
    } else if piece_type == KING && color == WHITE {
        "white_king"@
    } else if piece_type == PAWN && color == BLACK {
        "black_pawn"@
    } else if piece_type == KNIGHT && color == BLACK {
        "black_knight"@
    } else if piece_type == BISHOP && color == BLACK {
        "black_bishop"@
    } else if piece_type == ROOK && color == BLACK {
        "black_rook"@
    } else if piece_type == QUEEN && color == BLACK {
        "black_queen"@
    } else if piece_type == KING && color == BLACK {
        "black_king"@
    } else if piece_type == EMPTY && color == NONE {
        "empty"@
    } else {
        "invalid"@
    }
}

/// One quoted cell of the listing: row `rank`, column `file` shows square
/// `63 - (file + 8 * rank)`, so that the listing is seen from white's side.
pub open spec fn json_cell(v: BoardView, rank: int, file: int) -> Seq<char> {
    let (piece_type, color) = piece_at(v, 1u64 << ((63 - (file + rank * 8)) as u64));
    "\""@ + piece_name(piece_type, color) + "\""@ + (if file != 7 {
        ", "@
    } else {
        Seq::empty()
    })
}

/// The first `n` cells of rank `rank`.
pub open spec fn json_cells(v: BoardView, rank: int, n: int) -> Seq<char>
    decreases n,
{
    if n <= 0 {
        Seq::empty()
    } else {
        json_cells(v, rank, n - 1) + json_cell(v, rank, n - 1)
    }
}

/// The line of rank `rank`.
pub open spec fn json_row(v: BoardView, rank: int) -> Seq<char> {
    "\t\t["@ + json_cells(v, rank, 8) + "]"@ + (if rank != 7 {
        ",\n"@
    } else {
        "\n"@
    })
}

/// The lines of the first `n` ranks.
pub open spec fn json_rows(v: BoardView, n: int) -> Seq<char>
    decreases n,
{
    if n <= 0 {
        Seq::empty()
    } else {
        json_rows(v, n - 1) + json_row(v, n - 1)
    }
}

/// The board as a JSON object with one array per rank, flipped for a front
/// end that shows white at the bottom: the first array lists bits 63 down to
/// 56 (black's back rank), the last bits 7 down to 0.
pub open spec fn board_json(v: BoardView) -> Seq<char> {
    "{\n"@ + "\t\"board\": [\n"@ + json_rows(v, 8) + "\t]\n"@ + "}\n"@
}

/// The name of a piece type and color in the board listing.
fn piece_name_str(piece_type: u8, color: u8) -> (r: &'static str)
    ensures
        r@ == piece_name(piece_type, color),
{
    if piece_type == PAWN && color == WHITE {
        "white_pawn"
    } else if piece_type == KNIGHT && color == WHITE {
        "white_knight"
    } else if piece_type == BISHOP && color == WHITE {
        "white_bishop"
    } else if piece_type == ROOK && color == WHITE {
        "white_rook"
    } else if piece_type == QUEEN && color == WHITE {
        "white_queen"
    } else if piece_type == KING && color == WHITE {
        "white_king"
    } else if piece_type == PAWN && color == BLACK {
        "black_pawn"
    } else if piece_type == KNIGHT && color == BLACK {
        "black_knight"
    } else if piece_type == BISHOP && color == BLACK {
        "black_bishop"
    } else if piece_type == ROOK && color == BLACK {
        "black_rook"
    } else if piece_type == QUEEN && color == BLACK {
        "black_queen"
    } else if piece_type == KING && color == BLACK {
        "black_king"
    } else if piece_type == EMPTY && color == NONE {
        "empty"
    } else {
        "invalid"
    }
}

/// After any move the en passant file is 0 or a file (1..=8).
pub proof fn lemma_move_piece_en_passant(v: BoardView, piece: u8, color: u8, mv: (u16, MoveType))
    ensures
        move_piece_view(v, piece, color, mv).en_passant <= 8,
{
}

/// Maps a piece type (1..=6) and a color to its slot in the piece array.
/// Any other piece type or color has no slot.
pub fn piece_index(piece: u8, color: u8) -> (r: Option<usize>)
    requires
        is_piece_type(piece),
        is_color(color),
    ensures
        r == Some(piece_slot(piece, color) as usize),
{
    if color == WHITE {
        Some((piece - 1) as usize)
    } else {
        Some((piece + 5) as usize)
    }
}

impl Chessboard {
    pub fn get_piece_mask(&self, piece: u8, color: u8) -> (r: u64)
        requires
            is_piece_type(piece),
            is_color(color),
        ensures
            r == mask_of(self@, piece, color),
    {
        self.pieces[piece_index(piece, color).unwrap()]
    }

    /// Sets the bitboard of one piece type and color; the occupancy
    /// bitboards are left as they are.
    pub fn set_piece_mask(&mut self, piece: u8, color: u8, mask: u64)
        requires
            is_piece_type(piece),
            is_color(color),
        ensures
            final(self)@ == with_mask(old(self)@, piece, color, mask),
    {
        let i = piece_index(piece, color).unwrap();
        self.pieces[i] = mask;
        assert(self@.pieces =~= with_mask(old(self)@, piece, color, mask).pieces);
    }

    pub fn get_pieces(&self) -> (r: [u64; 12])
        ensures
            r@ == self@.pieces,
    {
        self.pieces
    }

    /// Overwrites the whole piece array.
    pub fn set_pieces(&mut self, pieces: [u64; 12])
        ensures
            final(self)@ == (BoardView { pieces: pieces@, ..old(self)@ }),
    {
        self.pieces = pieces;
    }

    pub fn get_white_pieces(&self) -> (r: u64)
        ensures
            r == self@.white,
    {
        self.white_pieces
    }

    pub fn set_white_pieces(&mut self, white_pieces: u64)
        ensures
            final(self)@ == (BoardView { white: white_pieces, ..old(self)@ }),
    {
        self.white_pieces = white_pieces;
    }

    pub fn get_black_pieces(&self) -> (r: u64)
        ensures
            r == self@.black,
    {
        self.black_pieces
    }

    pub fn set_black_pieces(&mut self, black_pieces: u64)
        ensures
            final(self)@ == (BoardView { black: black_pieces, ..old(self)@ }),
    {
        self.black_pieces = black_pieces;
    }

    pub fn get_castling_rights(&self) -> (r: u8)
        ensures
            r == self@.castling,
    {
        self.castling_rights
    }

    pub fn set_castling_rights(&mut self, rights: u8)
        ensures
            final(self)@ == (BoardView { castling: rights, ..old(self)@ }),
    {
        self.castling_rights = rights;
    }

    pub fn get_en_passant(&self) -> (r: u8)
        ensures
            r == self@.en_passant,
    {
        self.en_passant
    }

    pub fn set_en_passant(&mut self, ep: u8)
        ensures
            final(self)@ == (BoardView { en_passant: ep, ..old(self)@ }),
    {
        self.en_passant = ep;
    }

    /// A board with the standard starting position, all castling rights and
    /// no en passant file.
    pub fn new() -> (r: Chessboard)
        ensures
            r@ == starting_view(),
    {
        let mut board = Chessboard {
            pieces: [0u64; 12],
            white_pieces: 0,
            black_pieces: 0,
            castling_rights: 0b1111,
            en_passant: 0,
        };
        board.place(PAWN, WHITE, 0x0000_0000_0000_FF00u64);
        board.place(PAWN, BLACK, 0x00FF_0000_0000_0000u64);
        board.place(KNIGHT, BLACK, (1u64 << 57u64) | (1u64 << 62u64));
        board.place(KNIGHT, WHITE, (1u64 << 1u64) | (1u64 << 6u64));
        board.place(BISHOP, BLACK, (1u64 << 58u64) | (1u64 << 61u64));
        board.place(BISHOP, WHITE, (1u64 << 2u64) | (1u64 << 5u64));
        board.place(ROOK, BLACK, (1u64 << 56u64) | (1u64 << 63u64));
        board.place(ROOK, WHITE, 1u64 | (1u64 << 7u64));
        board.place(QUEEN, BLACK, 1u64 << 60u64);
        board.place(QUEEN, WHITE, 1u64 << 4u64);
        board.place(KING, BLACK, 1u64 << 59u64);
        board.place(KING, WHITE, 1u64 << 3u64);
        proof {
            crate::constants::lemma_board_constants();
        }
        assert(0x0000_0000_0000_FF00u64 | ((1u64 << 1u64) | (1u64 << 6u64)) | ((1u64 << 2u64) | (1u64
            << 5u64)) | (1u64 | (1u64 << 7u64)) | (1u64 << 4u64) | (1u64 << 3u64)
            == 0x0000_0000_0000_FFFFu64 && 0x00FF_0000_0000_0000u64 | ((1u64 << 57u64) | (1u64
            << 62u64)) | ((1u64 << 58u64) | (1u64 << 61u64)) | ((1u64 << 56u64) | (1u64 << 63u64))
            | (1u64 << 60u64) | (1u64 << 59u64) == 0xFFFF_0000_0000_0000u64 && (1u64 << 57u64) | (
        1u64 << 62u64) == 0x4200_0000_0000_0000u64 && (1u64 << 1u64) | (1u64 << 6u64) == 0x42u64
            && (1u64 << 58u64) | (1u64 << 61u64) == 0x2400_0000_0000_0000u64 && (1u64 << 2u64) | (
        1u64 << 5u64) == 0x24u64 && (1u64 << 56u64) | (1u64 << 63u64) == 0x8100_0000_0000_0000u64
            && 1u64 | (1u64 << 7u64) == 0x81u64 && 1u64 << 60u64 == 0x1000_0000_0000_0000u64 && 1u64
            << 4u64 == 0x10u64 && 1u64 << 59u64 == 0x0800_0000_0000_0000u64 && 1u64 << 3u64
            == 0x08u64 && 0u64 | 0x0000_0000_0000_FF00u64 == 0x0000_0000_0000_FF00u64 && 0u64
            | 0x00FF_0000_0000_0000u64 == 0x00FF_0000_0000_0000u64);
        assert(board@.pieces =~= starting_view().pieces);
        board
    }

    /// Puts `mask` on the bitboard of a piece and adds it to the occupancy of its color.
    fn place(&mut self, piece: u8, color: u8, mask: u64)
        requires
            is_piece_type(piece),
            is_color(color),
        ensures
            final(self)@ == (if color == WHITE {
                BoardView { white: old(self)@.white | mask, ..with_mask(old(self)@, piece, color, mask) }
            } else {
                BoardView { black: old(self)@.black | mask, ..with_mask(old(self)@, piece, color, mask) }
            }),
    {
        self.set_piece_mask(piece, color, mask);
        if color == WHITE {
            self.white_pieces = self.white_pieces | mask;
        } else {
            self.black_pieces = self.black_pieces | mask;
        }
    }

    /// The piece type and color on the square(s) of `pos`: the first bitboard
    /// that meets `pos`, from pawn to king and white before black, or
    /// `(EMPTY, NONE)`.
    pub fn get_piece_at(&self, pos: u64) -> (r: (u8, u8))
        ensures
            r == piece_at(self@, pos),
    {
        let mut piece: u8 = 1;
        while piece <= 6
            invariant
                1 <= piece <= 7,
                piece_at(self@, pos) == piece_at_from(self@, pos, piece),
            decreases 7 - piece,
        {
            if (self.get_piece_mask(piece, WHITE) & pos) != 0 {
                return (piece, WHITE);
            }
            if (self.get_piece_mask(piece, BLACK) & pos) != 0 {
                return (piece, BLACK);
            }
            piece = piece + 1;
        }
        (EMPTY, NONE)
    }

    /// The board as a JSON object, flipped for a front end that shows white
    /// at the bottom: `board` holds eight arrays, one per rank from black's
    /// back rank (bits 63 down to 56) to white's (bits 7 down to 0), each
    /// naming the piece on its eight squares (`white_pawn` .. `black_king`,
    /// or `empty`).
    pub fn convert_to_json(&mut self) -> (r: String)
        ensures
            r@ == board_json(old(self)@),
            final(self)@ == old(self)@,
    {
        let ghost v = self@;
        let mut json = String::new();
        json.append("{\n");
        json.append("\t\"board\": [\n");
        let ghost head = "{\n"@ + "\t\"board\": [\n"@;
        assert(json@ =~= head + json_rows(v, 0));
        let mut rank: u64 = 0;
        while rank < 8
            invariant
                rank <= 8,
                self@ == v,
                json@ == head + json_rows(v, rank as int),
            decreases 8 - rank,
        {
            json.append("\t\t[");
            let ghost row_start = head + json_rows(v, rank as int) + "\t\t["@;
            assert(json@ =~= row_start + json_cells(v, rank as int, 0));
            let mut file: u64 = 0;
            while file < 8
                invariant
                    rank < 8,
                    file <= 8,
                    self@ == v,
                    json@ == row_start + json_cells(v, rank as int, file as int),
                decreases 8 - file,
            {
                let square = 63 - (file + rank * 8);
                let square_mask: u64 = 1u64 << square;
                let (piece_type, color) = self.get_piece_at(square_mask);
                let piece_value = piece_name_str(piece_type, color);
                json.append("\"");
                json.append(piece_value);
                json.append("\"");
                if file != 7 {
                    json.append(", ");
                }
                assert(json@ =~= row_start + json_cells(v, rank as int, file + 1));
                file = file + 1;
            }
            json.append("]");
            if rank != 7 {
                json.append(",\n");
            } else {
                json.append("\n");
            }
            assert(json@ =~= head + json_rows(v, rank + 1));
            rank = rank + 1;
        }
        json.append("\t]\n");
        json.append("}\n");
        assert(json@ =~= board_json(v));
        json
    }

    /// Records the file of a pawn that leaves `from` with a double push.
    fn assign_en_passant(&mut self, from: u64, piece_type: u8, color: u8)
        ensures
            final(self)@ == (BoardView {
                en_passant: en_passant_after(old(self)@, from, piece_type, color),
                ..old(self)@
            }),
    {
        if piece_type == PAWN && color == WHITE {
            let file = (from.trailing_zeros() % 8 + 1) as u8;
            self.en_passant = file;
        } else if piece_type == PAWN && color == BLACK {
            let file = (from.trailing_zeros() % 8 + 1) as u8;
            self.en_passant = file;
        }
    }

    /// Takes away the castling rights that a move from `from` to `to` ends.
    pub fn update_castling_rights(&mut self, from: u64, to: u64)
        ensures
            final(self)@ == (BoardView {
                castling: castling_after(old(self)@.castling, from, to),
                ..old(self)@
            }),
    {
        let old_castling = self.castling_rights;
        let lost: u8 = (if from & (1u64 << 3u64) != 0 {
            WHITE_QUEENSIDE_CASTLE | WHITE_KINGSIDE_CASTLE
        } else {
            0u8
        }) | (if from & (1u64 << 59u64) != 0 {
            BLACK_QUEENSIDE_CASTLE | BLACK_KINGSIDE_CASTLE
        } else {
            0u8
        }) | (if from & (1u64 << 7u64) != 0 || to & (1u64 << 7u64) != 0 {
            WHITE_QUEENSIDE_CASTLE
        } else {
            0u8
        }) | (if from & 1u64 != 0 || to & 1u64 != 0 {
            WHITE_KINGSIDE_CASTLE
        } else {
            0u8
        }) | (if from & (1u64 << 63u64) != 0 || to & (1u64 << 63u64) != 0 {
            BLACK_QUEENSIDE_CASTLE
        } else {
            0u8
        }) | (if from & (1u64 << 56u64) != 0 || to & (1u64 << 56u64) != 0 {
            BLACK_KINGSIDE_CASTLE
        } else {
            0u8
        });
        let new_castling = old_castling & !lost;
        if new_castling != old_castling {
            self.castling_rights = new_castling;
        }
    }

    /// Empties `square` on every bitboard.
    fn clear_square(&mut self, square: u64)
        ensures
            final(self)@ == clear_square_view(old(self)@, square),
    {
        let ghost v0 = self@;
        let mut p: u8 = 1;
        while p <= 6
            invariant
                1 <= p <= 7,
                self@.pieces.len() == 12,
                self@.castling == v0.castling,
                self@.en_passant == v0.en_passant,
                forall|i: int|
                    0 <= i < 12 ==> #[trigger] self@.pieces[i] == (if (0 <= i < p - 1 || 6 <= i < p
                        + 5) && v0.pieces[i] & square != 0 {
                        v0.pieces[i] & !square
                    } else {
                        v0.pieces[i]
                    }),
                self@.white == (if color_meets_below(v0, WHITE, square, p) {
                    v0.white & !square
                } else {
                    v0.white
                }),
                self@.black == (if color_meets_below(v0, BLACK, square, p) {
                    v0.black & !square
                } else {
                    v0.black
                }),
            decreases 7 - p,
        {
            proof {
                lemma_mask_identities(v0.white, square);
                lemma_mask_identities(v0.black, square);
            }
            let ghost before = self@;
            if (self.get_piece_mask(p, WHITE) & square) != 0 {
                self.set_piece_mask(p, WHITE, self.get_piece_mask(p, WHITE) & !square);
                self.white_pieces = self.white_pieces & !square;
            }
            if (self.get_piece_mask(p, BLACK) & square) != 0 {
                self.set_piece_mask(p, BLACK, self.get_piece_mask(p, BLACK) & !square);
                self.black_pieces = self.black_pieces & !square;
            }
            proof {
                assert(meets(v0, p, WHITE, square) == (before.pieces[p - 1] & square != 0));
                assert(meets(v0, p, BLACK, square) == (before.pieces[p + 5] & square != 0));
                if meets(v0, p, WHITE, square) {
                    assert(color_meets_below(v0, WHITE, square, (p + 1) as u8));
                }
                if meets(v0, p, BLACK, square) {
                    assert(color_meets_below(v0, BLACK, square, (p + 1) as u8));
                }
                if color_meets_below(v0, WHITE, square, (p + 1) as u8) && !meets(v0, p, WHITE, square) {
                    let q = choose|q: u8| PAWN <= q < p + 1 && #[trigger] meets(v0, q, WHITE, square);
                    assert(color_meets_below(v0, WHITE, square, p));
                }
                if color_meets_below(v0, BLACK, square, (p + 1) as u8) && !meets(v0, p, BLACK, square) {
                    let q = choose|q: u8| PAWN <= q < p + 1 && #[trigger] meets(v0, q, BLACK, square);
                    assert(color_meets_below(v0, BLACK, square, p));
                }
                if color_meets_below(v0, WHITE, square, p) {
                    assert(color_meets_below(v0, WHITE, square, (p + 1) as u8));
                }
                if color_meets_below(v0, BLACK, square, p) {
                    assert(color_meets_below(v0, BLACK, square, (p + 1) as u8));
                }
            }
            p = p + 1;
        }
        assert(self@.pieces =~= clear_square_view(v0, square).pieces);
    }

    /// Plays a move of `piece` of `color` on the board, assuming it is legal:
    /// the destination (and, en passant, the captured pawn's square) is
    /// emptied, the piece (or its promotion) lands on the destination, a
    /// castling rook moves with the king, and a double pawn push records
    /// its file for en passant. The en passant file is cleared otherwise.
    pub fn move_piece(&mut self, piece: u8, color: u8, mv: &Move)
        requires
            is_piece_type(piece),
            is_color(color),
            mv@.1 matches MoveType::Promotion { promoted_piece } ==> is_piece_type(promoted_piece),
        ensures
            final(self)@ == move_piece_view(old(self)@, piece, color, mv@),
    {
        self.en_passant = 0;

        let from = mv.get_from_mask();
        let to = mv.get_to_mask();
        let array_index = piece_index(piece, color).unwrap();
        self.clear_square(to);

        match mv.move_type() {
            MoveType::Normal => {},
            MoveType::EnPassant { captured_square } => {
                self.clear_square(captured_square);
            },
            MoveType::Castling { rook_from, rook_to } => {
                let rook_idx = piece_index(ROOK, color).unwrap();
                self.pieces[rook_idx] = self.pieces[rook_idx] & !rook_from;
                self.pieces[rook_idx] = self.pieces[rook_idx] | rook_to;
                if color == WHITE {
                    self.white_pieces = self.white_pieces & !rook_from;
                    self.white_pieces = self.white_pieces | rook_to;
                } else {
                    self.black_pieces = self.black_pieces & !rook_from;
                    self.black_pieces = self.black_pieces | rook_to;
                }
            },
            MoveType::Promotion { promoted_piece } => {
                self.pieces[array_index] = self.pieces[array_index] & !from;
                let promo_index = piece_index(promoted_piece, color).unwrap();
                self.pieces[promo_index] = self.pieces[promo_index] | to;
                if color == WHITE {
                    self.white_pieces = self.white_pieces & !from;
                    self.white_pieces = self.white_pieces | to;
                } else {
                    self.black_pieces = self.black_pieces & !from;
                    self.black_pieces = self.black_pieces | to;
                }
                assert(self@.pieces =~= move_piece_view(old(self)@, piece, color, mv@).pieces);
                return ;
            },
            MoveType::DoublePawnPush => {
                self.assign_en_passant(from, piece, color);
            },
        }

        self.pieces[array_index] = self.pieces[array_index] & !from;
        self.pieces[array_index] = self.pieces[array_index] | to;
        if color == WHITE {
            self.white_pieces = self.white_pieces & !from;
            self.white_pieces = self.white_pieces | to;
        } else {
            self.black_pieces = self.black_pieces & !from;
            self.black_pieces = self.black_pieces | to;
        }
        assert(self@.pieces =~= move_piece_view(old(self)@, piece, color, mv@).pieces);
    }
}

} // verus!
