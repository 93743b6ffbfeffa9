//! Pseudo-legal move generation on the history board: pawns, knights,
//! bishops, rooks and queens. Kings have no moves here, and no move is
//! checked for leaving its own king attacked.
use vstd::prelude::*;

verus! {

use crate::bits::{low_square, without_low, expand, lemma_low_index, lemma_clear_low};
use crate::board_history::board::{Chessboard, PositionView, board_of, is_side, WHITE, BLACK};
use crate::board_history::mask_move::Move;
use crate::constants::{PAWN, KNIGHT, BISHOP, ROOK, QUEEN, KING};

/// The first and last ranks, and the edge files, of this board's masks.
pub const RANK_0: u64 = 0x0000_0000_0000_00FFu64;
pub const RANK_1: u64 = 0x0000_0000_0000_FF00u64;
pub const RANK_7: u64 = 0xFF00_0000_0000_0000u64;
pub const FILE_A: u64 = 0x0101_0101_0101_0101u64;
pub const FILE_H: u64 = 0x8080_8080_8080_8080u64;

/// The squares of moves as masks.
pub open spec fn mask_views(s: Seq<Move>) -> Seq<(u64, u64)> {
    s.map_values(|m: Move| m@)
}

/// The move that `square` (one bit) stands for in a pawn mask: with
/// `bit_is_origin` the pawn leaves `square` for the square `shift` away
/// (up or down), otherwise it reaches `square` from there.
pub open spec fn pawn_pair(square: u64, shift: u64, up: bool, bit_is_origin: bool) -> (u64, u64) {
    let other = if up {
        square << shift
    } else {
        square >> shift
    };
    if bit_is_origin {
        (square, other)
    } else {
        (other, square)
    }
}

/// The pawn moves of each square of `mask`, lowest square first.
pub open spec fn pawn_pairs(mask: u64, shift: u64, up: bool, bit_is_origin: bool) -> Seq<(u64, u64)> {
    expand(mask, |sq: u64| seq![pawn_pair(sq, shift, up, bit_is_origin)])
}

/// The moves from `from` to each square of `targets`, lowest first.
pub open spec fn moves_to(from: u64, targets: u64) -> Seq<(u64, u64)> {
    expand(targets, |to: u64| seq![(from, to)])
}

/// Over the squares 0..n that `pieces` holds, in order, the moves `f` gives.
pub open spec fn over_squares(pieces: u64, f: spec_fn(u64) -> Seq<(u64, u64)>, n: int) -> Seq<(u64, u64)>
    decreases n,
{
    if n <= 0 {
        Seq::empty()
    } else {
        over_squares(pieces, f, n - 1) + (if pieces & (1u64 << ((n - 1) as u64)) != 0 {
            f((n - 1) as u64)
        } else {
            Seq::empty()
        })
    }
}

/// Over the squares 0..n that `targets` holds, in order, a move from `from`.
pub open spec fn scan_targets(from: u64, targets: u64, n: int) -> Seq<(u64, u64)>
    decreases n,
{
    if n <= 0 {
        Seq::empty()
    } else {
        scan_targets(from, targets, n - 1) + (if targets & (1u64 << ((n - 1) as u64)) != 0 {
            seq![(from, 1u64 << ((n - 1) as u64))]
        } else {
            Seq::empty()
        })
    }
}

/// The mask of square (x, y).
pub open spec fn square_mask(x: int, y: int) -> u64 {
    1u64 << ((x + y * 8) as u64)
}

/// The squares a knight on `sq` jumps to, off the squares of `own`.
pub open spec fn knight_targets(sq: u64, own: u64) -> u64 {
    let x = (sq % 8) as int;
    let y = (sq / 8) as int;
    let m = (if x > 0 && y > 1 {
        square_mask(x - 1, y - 2)
    } else {
        0u64
    }) | (if x > 1 && y > 0 {
        square_mask(x - 2, y - 1)
    } else {
        0u64
    }) | (if x > 1 && y < 7 {
        square_mask(x - 2, y + 1)
    } else {
        0u64
    }) | (if x > 0 && y < 6 {
        square_mask(x - 1, y + 2)
    } else {
        0u64
    }) | (if x < 7 && y < 6 {
        square_mask(x + 1, y + 2)
    } else {
        0u64
    }) | (if x < 6 && y < 7 {
        square_mask(x + 2, y + 1)
    } else {
        0u64
    }) | (if x < 6 && y > 0 {
        square_mask(x + 2, y - 1)
    } else {
        0u64
    }) | (if x < 7 && y > 1 {
        square_mask(x + 1, y - 2)
    } else {
        0u64
    });
    m & !own
}

/// The squares along the ray from (x, y) in direction (dx, dy), from step
/// `i` on, up to and including the first occupied square and never past
/// the board's edge or step 7.
pub open spec fn ray(all: u64, x: int, y: int, dx: int, dy: int, i: int) -> u64
    decreases 8 - i,
{
    if i < 1 || i >= 8 {
        0u64
    } else {
        let nx = x + dx * i;
        let ny = y + dy * i;
        if nx < 0 || nx > 7 || ny < 0 || ny > 7 {
            0u64
        } else if all & square_mask(nx, ny) != 0 {
            square_mask(nx, ny)
        } else {
            square_mask(nx, ny) | ray(all, x, y, dx, dy, i + 1)
        }
    }
}

/// The squares a bishop on `sq` reaches, off the squares of `own`.
pub open spec fn bishop_targets(sq: u64, own: u64, all: u64) -> u64 {
    let x = (sq % 8) as int;
    let y = (sq / 8) as int;
    (ray(all, x, y, 1, 1, 1) | ray(all, x, y, -1, -1, 1) | ray(all, x, y, 1, -1, 1) | ray(
        all,
        x,
        y,
        -1,
        1,
        1,
    )) & !own
}

/// The squares a rook on `sq` reaches, off the squares of `own`.
pub open spec fn rook_targets(sq: u64, own: u64, all: u64) -> u64 {
    let x = (sq % 8) as int;
    let y = (sq / 8) as int;
    (ray(all, x, y, 1, 0, 1) | ray(all, x, y, -1, 0, 1) | ray(all, x, y, 0, 1, 1) | ray(
        all,
        x,
        y,
        0,
        -1,
        1,
    )) & !own
}

/// The own pieces of `color`: white for 1, black for any other value.
pub open spec fn own_of(p: PositionView, color: i8) -> u64 {
    if color == 1 {
        p.white
    } else {
        p.black
    }
}

/// The bitboard of a kind for `color`: white for 1, black otherwise.
pub open spec fn kind_of(p: PositionView, piece: u8, color: i8) -> u64 {
    if color == 1 {
        board_of(p, piece, WHITE)
    } else {
        board_of(p, piece, BLACK)
    }
}

pub open spec fn knight_moves(p: PositionView, color: i8) -> Seq<(u64, u64)> {
    over_squares(
        kind_of(p, KNIGHT, color),
        |sq: u64| scan_targets(1u64 << sq, knight_targets(sq, own_of(p, color)), 64),
        64,
    )
}

/// The pieces a bishop-like generation moves: `queen_mask` when given.
pub open spec fn slider_pieces(p: PositionView, color: i8, piece: u8, queen_mask: Option<u64>) -> u64 {
    match queen_mask {
        Some(q) => q,
        None => kind_of(p, piece, color),
    }
}

pub open spec fn bishop_moves(p: PositionView, color: i8, queen_mask: Option<u64>) -> Seq<(u64, u64)> {
    over_squares(
        slider_pieces(p, color, BISHOP, queen_mask),
        |sq: u64| moves_to(1u64 << sq, bishop_targets(sq, own_of(p, color), p.white | p.black)),
        64,
    )
}

pub open spec fn rook_moves(p: PositionView, color: i8, queen_mask: Option<u64>) -> Seq<(u64, u64)> {
    over_squares(
        slider_pieces(p, color, ROOK, queen_mask),
        |sq: u64| moves_to(1u64 << sq, rook_targets(sq, own_of(p, color), p.white | p.black)),
        64,
    )
}

pub open spec fn queen_moves(p: PositionView, color: i8) -> Seq<(u64, u64)> {
    bishop_moves(p, color, Some(board_of(p, QUEEN, color))) + rook_moves(
        p,
        color,
        Some(board_of(p, QUEEN, color)),
    )
}

/// White's pawns that may step forward.
pub open spec fn white_steps(p: PositionView) -> u64 {
    (board_of(p, PAWN, WHITE) & !RANK_7) & !((p.white | p.black) >> 8u64)
}

/// Black's pawn step mask.
pub open spec fn black_steps(p: PositionView) -> u64 {
    (board_of(p, PAWN, BLACK) & !RANK_0) & !((p.black | p.white) >> 8u64)
}

/// The masks whose double steps this generator would repeat without end:
/// it only stops when they are empty.
pub open spec fn double_steps_empty(p: PositionView, color: i8) -> bool {
    if color == WHITE {
        board_of(p, PAWN, WHITE) & RANK_1 == 0
    } else {
        black_steps(p) & RANK_1 == 0
    }
}

pub open spec fn pawn_moves(p: PositionView, color: i8) -> Seq<(u64, u64)> {
    if color == WHITE {
        let pawns = board_of(p, PAWN, WHITE);
        pawn_pairs(white_steps(p), 8, true, true) + pawn_pairs(
            ((pawns & !FILE_A) >> 9u64) & p.black,
            9,
            true,
            false,
        ) + pawn_pairs(((pawns & !FILE_H) >> 7u64) & p.black, 7, true, false)
    } else {
        let pawns = board_of(p, PAWN, BLACK);
        pawn_pairs(black_steps(p), 8, false, false) + pawn_pairs(
            ((pawns & !FILE_A) << 7u64) & p.white,
            7,
            false,
            false,
        ) + pawn_pairs(((pawns & !FILE_H) << 9u64) & p.white, 9, false, false)
    }
}

/// All the moves this generator gives for `color`, in its order: pawns,
/// knights, bishops, rooks, queens (kings give none).
pub open spec fn all_moves(p: PositionView, color: i8) -> Seq<(u64, u64)> {
    pawn_moves(p, color) + knight_moves(p, color) + bishop_moves(p, color, None) + rook_moves(
        p,
        color,
        None,
    ) + queen_moves(p, color)
}

/// Appends the pawn move of each square of `mask`, lowest first.
fn push_pawn_pairs(moves: &mut Vec<Move>, mask: u64, shift: u64, up: bool, bit_is_origin: bool)
    requires
        shift < 64,
    ensures
        mask_views(final(moves)@) == mask_views(old(moves)@) + pawn_pairs(mask, shift, up, bit_is_origin),
{
    let mut m = mask;
    while m != 0
        invariant
            shift < 64,
            mask_views(moves@) + pawn_pairs(m, shift, up, bit_is_origin) == mask_views(old(moves)@)
                + pawn_pairs(mask, shift, up, bit_is_origin),
        decreases m,
    {
        proof {
            lemma_low_index(m);
            lemma_clear_low(m);
        }
        let square = 1u64 << m.trailing_zeros();
        let other = if up {
            square << shift
        } else {
            square >> shift
        };
        let ghost before = moves@;
        if bit_is_origin {
            moves.push(Move::new(square, other));
        } else {
            moves.push(Move::new(other, square));
        }
        proof {
            let pair = pawn_pair(square, shift, up, bit_is_origin);
            assert(mask_views(moves@) =~= mask_views(before).push(pair));
            assert(pawn_pairs(m, shift, up, bit_is_origin) =~= seq![pair] + pawn_pairs(
                without_low(m),
                shift,
                up,
                bit_is_origin,
            ));
            assert(mask_views(moves@) + pawn_pairs(without_low(m), shift, up, bit_is_origin)
                =~= mask_views(before) + pawn_pairs(m, shift, up, bit_is_origin));
        }
        m = m & !square;
    }
}

/// Appends the move from `from` to each square of `targets`, lowest first.
fn push_moves_to(moves: &mut Vec<Move>, from: u64, targets: u64)
    ensures
        mask_views(final(moves)@) == mask_views(old(moves)@) + moves_to(from, targets),
{
    let mut temp_mask = targets;
    while temp_mask != 0
        invariant
            mask_views(moves@) + moves_to(from, temp_mask) == mask_views(old(moves)@) + moves_to(
                from,
                targets,
            ),
        decreases temp_mask,
    {
        proof {
            lemma_low_index(temp_mask);
        }
        let to_square = 1u64 << temp_mask.trailing_zeros();
        let ghost before = moves@;
        moves.push(Move::new(from, to_square));
        proof {
            assert(mask_views(moves@) =~= mask_views(before).push((from, to_square)));
            assert(moves_to(from, temp_mask) =~= seq![(from, to_square)] + moves_to(
                from,
                without_low(temp_mask),
            ));
            assert(mask_views(moves@) + moves_to(from, without_low(temp_mask)) =~= mask_views(before)
                + moves_to(from, temp_mask));
        }
        temp_mask = temp_mask & (temp_mask - 1);
    }
}

/// Pawn moves: single steps and diagonal captures (no double steps, en
/// passant or promotion). The double-step loops of this generator never
/// end when their mask has a square, so such positions are excluded.
pub fn get_pawn_moves(chessboard: &Chessboard, color: i8, moves: &mut Vec<Move>)
    requires
        double_steps_empty(chessboard@.current, color),
    ensures
        mask_views(final(moves)@) == mask_views(old(moves)@) + pawn_moves(chessboard@.current, color),
{
    let ghost p = chessboard@.current;
    if color == WHITE {
        let pieces = chessboard.get_white_pieces();
        let opponent_pieces = chessboard.get_black_pieces();
        let pawns = chessboard.get_piece_mask(PAWN, WHITE);
        let move_mask = (pawns & !RANK_7) & !((pieces | opponent_pieces) >> 8u64);
        let right_capture_mask = ((pawns & !FILE_H) >> 7u64) & opponent_pieces;
        let left_capture_mask = ((pawns & !FILE_A) >> 9u64) & opponent_pieces;
        push_pawn_pairs(moves, move_mask, 8, true, true);
        push_pawn_pairs(moves, left_capture_mask, 9, true, false);
        push_pawn_pairs(moves, right_capture_mask, 7, true, false);
    } else {
        let pieces = chessboard.get_black_pieces();
        let opponent_pieces = chessboard.get_white_pieces();
        let pawns = chessboard.get_piece_mask(PAWN, BLACK);
        let move_mask = (pawns & !RANK_0) & !((pieces | opponent_pieces) >> 8u64);
        let right_capture_mask = ((pawns & !FILE_H) << 9u64) & opponent_pieces;
        let left_capture_mask = ((pawns & !FILE_A) << 7u64) & opponent_pieces;
        push_pawn_pairs(moves, move_mask, 8, false, false);
        push_pawn_pairs(moves, left_capture_mask, 7, false, false);
        push_pawn_pairs(moves, right_capture_mask, 9, false, false);
    }
    assert(mask_views(moves@) =~= mask_views(old(moves)@) + pawn_moves(p, color));
}

/// The squares a knight on `sq` jumps to, off the squares of `own`.
fn knight_jumps(sq: u64, own: u64) -> (r: u64)
    requires
        sq < 64,
    ensures
        r == knight_targets(sq, own),
{
    let x = sq % 8;
    let y = sq / 8;
    let mut move_mask: u64 = 0;
    if x > 0 && y > 1 {
        move_mask = move_mask | (1u64 << (x - 1 + (y - 2) * 8));
    }
    if x > 1 && y > 0 {
        move_mask = move_mask | (1u64 << (x - 2 + (y - 1) * 8));
    }
    if x > 1 && y < 7 {
        move_mask = move_mask | (1u64 << (x - 2 + (y + 1) * 8));
    }
    if x > 0 && y < 6 {
        move_mask = move_mask | (1u64 << (x - 1 + (y + 2) * 8));
    }
    if x < 7 && y < 6 {
        move_mask = move_mask | (1u64 << (x + 1 + (y + 2) * 8));
    }
    if x < 6 && y < 7 {
        move_mask = move_mask | (1u64 << (x + 2 + (y + 1) * 8));
    }
    if x < 6 && y > 0 {
        move_mask = move_mask | (1u64 << (x + 2 + (y - 1) * 8));
    }
    if x < 7 && y > 1 {
        move_mask = move_mask | (1u64 << (x + 1 + (y - 2) * 8));
    }
    assert(0u64 | 0u64 == 0u64 && forall|a: u64| 0u64 | a == a && a | 0u64 == a) by (bit_vector);
    move_mask & !own
}

/// Knight moves: for each knight square from the lowest, a move to each
/// square it jumps to that no own piece holds, lowest first.
pub fn get_knight_moves(chessboard: &Chessboard, color: i8, moves: &mut Vec<Move>)
    ensures
        mask_views(final(moves)@) == mask_views(old(moves)@) + knight_moves(chessboard@.current, color),
{
    let ghost p = chessboard@.current;
    let knight_mask = if color == 1 {
        chessboard.get_piece_mask(KNIGHT, WHITE)
    } else {
        chessboard.get_piece_mask(KNIGHT, BLACK)
    };
    let own_pieces = if color == 1 {
        chessboard.get_white_pieces()
    } else {
        chessboard.get_black_pieces()
    };
    let ghost f = |sq: u64| scan_targets(1u64 << sq, knight_targets(sq, own_pieces), 64);
    let mut square: u64 = 0;
    while square < 64
        invariant
            square <= 64,
            knight_mask == kind_of(p, KNIGHT, color),
            own_pieces == own_of(p, color),
            f == (|sq: u64| scan_targets(1u64 << sq, knight_targets(sq, own_pieces), 64)),
            mask_views(moves@) == mask_views(old(moves)@) + over_squares(knight_mask, f, square as int),
        decreases 64 - square,
    {
        let ghost at_square = moves@;
        if (knight_mask & (1u64 << square)) != 0 {
            let move_mask = knight_jumps(square, own_pieces);
            let from = 1u64 << square;
            let mut i: u64 = 0;
            while i < 64
                invariant
                    i <= 64,
                    square < 64,
                    from == 1u64 << square,
                    mask_views(moves@) == mask_views(at_square) + scan_targets(from, move_mask, i as int),
                decreases 64 - i,
            {
                let ghost before = moves@;
                if (move_mask & (1u64 << i)) != 0 {
                    moves.push(Move::new(from, 1u64 << i));
                    assert(mask_views(moves@) =~= mask_views(before).push((from, 1u64 << i)));
                }
                assert(mask_views(moves@) =~= mask_views(at_square) + scan_targets(from, move_mask, i + 1));
                i = i + 1;
            }
            assert(f(square) == scan_targets(from, move_mask, 64));
        }
        assert(mask_views(moves@) =~= mask_views(old(moves)@) + over_squares(knight_mask, f, square + 1));
        square = square + 1;
    }
    assert(knight_moves(p, color) == over_squares(knight_mask, f, 64));
}

/// The squares along a ray from (x, y) in direction (dx, dy) from step `i`
/// on, stopping after the first occupied square or at the edge.
fn ray_squares(all: u64, x: u64, y: u64, dx: i8, dy: i8, i: u64) -> (r: u64)
    requires
        x < 8,
        y < 8,
        -1 <= dx <= 1,
        -1 <= dy <= 1,
        1 <= i <= 8,
    ensures
        r == ray(all, x as int, y as int, dx as int, dy as int, i as int),
    decreases 8 - i,
{
    if i >= 8 {
        return 0;
    }
    assert(-8 <= (dx as int) * (i as int) <= 8) by (nonlinear_arith)
        requires
            -1 <= dx <= 1,
            1 <= i <= 8,
    ;
    assert(-8 <= (dy as int) * (i as int) <= 8) by (nonlinear_arith)
        requires
            -1 <= dy <= 1,
            1 <= i <= 8,
    ;
    let nx: i64 = x as i64 + dx as i64 * i as i64;
    let ny: i64 = y as i64 + dy as i64 * i as i64;
    if nx < 0 || nx > 7 || ny < 0 || ny > 7 {
        return 0;
    }
    let bit = 1u64 << ((nx + ny * 8) as u64);
    if all & bit != 0 {
        bit
    } else {
        bit | ray_squares(all, x, y, dx, dy, i + 1)
    }
}

/// Bishop moves (or, with `queen_mask`, the diagonal moves of those
/// squares): for each square from the lowest, a move to each reachable
/// square no own piece holds, lowest first.
pub fn get_bishop_moves(chessboard: &Chessboard, color: i8, moves: &mut Vec<Move>, queen_mask: Option<u64>)
    ensures
        mask_views(final(moves)@) == mask_views(old(moves)@) + bishop_moves(
            chessboard@.current,
            color,
            queen_mask,
        ),
{
    let ghost p = chessboard@.current;
    let bishop_mask = match queen_mask {
        Some(q) => q,
        None => if color == 1 {
            chessboard.get_piece_mask(BISHOP, WHITE)
        } else {
            chessboard.get_piece_mask(BISHOP, BLACK)
        },
    };
    let own_pieces = if color == 1 {
        chessboard.get_white_pieces()
    } else {
        chessboard.get_black_pieces()
    };
    let all_pieces = chessboard.get_white_pieces() | chessboard.get_black_pieces();
    let ghost f = |sq: u64| moves_to(1u64 << sq, bishop_targets(sq, own_pieces, all_pieces));
    let mut square: u64 = 0;
    while square < 64
        invariant
            square <= 64,
            bishop_mask == slider_pieces(p, color, BISHOP, queen_mask),
            own_pieces == own_of(p, color),
            all_pieces == p.white | p.black,
            f == (|sq: u64| moves_to(1u64 << sq, bishop_targets(sq, own_pieces, all_pieces))),
            mask_views(moves@) == mask_views(old(moves)@) + over_squares(bishop_mask, f, square as int),
        decreases 64 - square,
    {
        let ghost at_square = moves@;
        if (bishop_mask & (1u64 << square)) != 0 {
            let x = square % 8;
            let y = square / 8;
            let move_mask = (ray_squares(all_pieces, x, y, 1, 1, 1) | ray_squares(all_pieces, x, y, -1, -1, 1)
                | ray_squares(all_pieces, x, y, 1, -1, 1) | ray_squares(all_pieces, x, y, -1, 1, 1))
                & !own_pieces;
            push_moves_to(moves, 1u64 << square, move_mask);
            assert(f(square) == moves_to(1u64 << square, move_mask));
        }
        assert(mask_views(moves@) =~= mask_views(old(moves)@) + over_squares(bishop_mask, f, square + 1));
        square = square + 1;
    }
}

/// Rook moves (or, with `queen_mask`, the straight moves of those squares):
/// for each square from the lowest, a move to each reachable square no own
/// piece holds, lowest first.
pub fn get_rook_moves(chessboard: &Chessboard, color: i8, moves: &mut Vec<Move>, queen_mask: Option<u64>)
    ensures
        mask_views(final(moves)@) == mask_views(old(moves)@) + rook_moves(
            chessboard@.current,
            color,
            queen_mask,
        ),
{
    let ghost p = chessboard@.current;
    let rook_mask = match queen_mask {
        Some(q) => q,
        None => if color == 1 {
            chessboard.get_piece_mask(ROOK, WHITE)
        } else {
            chessboard.get_piece_mask(ROOK, BLACK)
        },
    };
    let own_pieces = if color == 1 {
        chessboard.get_white_pieces()
    } else {
        chessboard.get_black_pieces()
    };
    let all_pieces = chessboard.get_white_pieces() | chessboard.get_black_pieces();
    let ghost f = |sq: u64| moves_to(1u64 << sq, rook_targets(sq, own_pieces, all_pieces));
    let mut square: u64 = 0;
    while square < 64
        invariant
            square <= 64,
            rook_mask == slider_pieces(p, color, ROOK, queen_mask),
            own_pieces == own_of(p, color),
            all_pieces == p.white | p.black,
            f == (|sq: u64| moves_to(1u64 << sq, rook_targets(sq, own_pieces, all_pieces))),
            mask_views(moves@) == mask_views(old(moves)@) + over_squares(rook_mask, f, square as int),
        decreases 64 - square,
    {
        let ghost at_square = moves@;
        if (rook_mask & (1u64 << square)) != 0 {
            let x = square % 8;
            let y = square / 8;
            let move_mask = (ray_squares(all_pieces, x, y, 1, 0, 1) | ray_squares(all_pieces, x, y, -1, 0, 1)
                | ray_squares(all_pieces, x, y, 0, 1, 1) | ray_squares(all_pieces, x, y, 0, -1, 1))
                & !own_pieces;
            push_moves_to(moves, 1u64 << square, move_mask);
            assert(f(square) == moves_to(1u64 << square, move_mask));
        }
        assert(mask_views(moves@) =~= mask_views(old(moves)@) + over_squares(rook_mask, f, square + 1));
        square = square + 1;
    }
}

/// Queen moves: the diagonal moves of the queens, then their straight moves.
pub fn get_queen_moves(chessboard: &Chessboard, color: i8, moves: &mut Vec<Move>)
    requires
        is_side(color),
    ensures
        mask_views(final(moves)@) == mask_views(old(moves)@) + queen_moves(chessboard@.current, color),
{
    let queen_mask = chessboard.get_piece_mask(QUEEN, color);
    get_bishop_moves(chessboard, color, moves, Some(queen_mask));
    get_rook_moves(chessboard, color, moves, Some(queen_mask));
}

/// King moves are not generated: nothing is appended.
pub fn get_king_moves(chessboard: &Chessboard, color: i8, moves: &mut Vec<Move>)
    requires
        is_side(color),
    ensures
        final(moves)@ == old(moves)@,
{
    let _king_mask = chessboard.get_piece_mask(KING, color);
    let _pieces = if color == WHITE {
        chessboard.get_white_pieces()
    } else {
        chessboard.get_black_pieces()
    };
}

/// All moves of `color`: pawns, knights, bishops, rooks, queens and
/// (none) kings, in that order.
pub fn generate_moves(chessboard: &Chessboard, color: i8) -> (r: Vec<Move>)
    requires
        is_side(color),
        double_steps_empty(chessboard@.current, color),
    ensures
        mask_views(r@) == all_moves(chessboard@.current, color),
{
    let mut moves: Vec<Move> = Vec::new();
    assert(mask_views(moves@) =~= Seq::empty());
    get_pawn_moves(chessboard, color, &mut moves);
    get_knight_moves(chessboard, color, &mut moves);
    get_bishop_moves(chessboard, color, &mut moves, None);
    get_rook_moves(chessboard, color, &mut moves, None);
    get_queen_moves(chessboard, color, &mut moves);
    get_king_moves(chessboard, color, &mut moves);
    assert(mask_views(moves@) =~= all_moves(chessboard@.current, color));
    moves
}

} // verus!
