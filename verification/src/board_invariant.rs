//! The consistency of a board: no square on two bitboards, and each
//! color's occupancy the union of its six bitboards; playing a piece keeps
//! it.
use vstd::prelude::*;

verus! {

use crate::chess_move::{MoveType, from_index_of, to_index_of};
use crate::chessboard::{
    BoardView,
    mask_of,
    piece_slot,
    clear_square_view,
    color_meets,
    color_meets_below,
    meets,
    move_piece_view,
    en_passant_after,
};
use crate::constants::{PAWN, KNIGHT, BISHOP, ROOK, QUEEN, KING, WHITE, BLACK, is_piece_type, is_color};

/// The union of the six bitboards of `color`.
pub open spec fn union_of(v: BoardView, color: u8) -> u64 {
    mask_of(v, PAWN, color) | mask_of(v, KNIGHT, color) | mask_of(v, BISHOP, color) | mask_of(v, ROOK, color)
        | mask_of(v, QUEEN, color) | mask_of(v, KING, color)
}

/// A consistent board: twelve bitboards, no square on two of them, and the
/// occupancy of each color the union of its six bitboards.
pub open spec fn board_ok(v: BoardView) -> bool {
    &&& v.pieces.len() == 12
    &&& forall|i: int, j: int|
        0 <= i < 12 && 0 <= j < 12 && i != j ==> #[trigger] (v.pieces[i] & v.pieces[j]) == 0
    &&& v.white == union_of(v, WHITE)
    &&& v.black == union_of(v, BLACK)
}

/// A board view whose bitboards are `(p & x) | e(i)` for the bitboards `p`
/// of `v`, with the given occupancies.
pub open spec fn reshaped(v: BoardView, x: u64, e: spec_fn(int) -> u64, white: u64, black: u64) -> BoardView {
    BoardView { pieces: Seq::new(12, |i: int| (v.pieces[i] & x) | e(i)), white, black, ..v }
}

/// Facts of masking, adding and clearing squares on bitboards.
proof fn lemma_mask_algebra(p: u64, x: u64, y: u64, e: u64)
    ensures
        p & x == 0 ==> p == (p & !x) | 0u64,
        p & !x == (p & !x) | 0u64,
        p & x == 0 ==> p == p & !x,
        p & !x & 0u64 == 0,
        0u64 & y == 0,
        p & !x == (p & !x) | (0u64 | 0u64 | 0u64 | 0u64 | 0u64 | 0u64),
        p & x == 0 ==> p == (p & !x) | (0u64 | 0u64 | 0u64 | 0u64 | 0u64 | 0u64),
        e == 0u64 || y == 0u64 ==> e & y == 0,
        (e == y || e == 0u64) && p & y == 0 ==> p & !x & e == 0,
        p & x == 0 ==> p | y == (p & !x) | y,
        ((p & !x) | 0u64) & x == 0,
        ((p & !x) | 0u64) & !x == (p & !x) | 0u64,
        p & y == 0 ==> ((p & !x) | 0u64) & y == 0,
        p & y != 0 && x & y == 0 ==> ((p & !x) | 0u64) & y != 0,
        p & y != 0 ==> y != 0,
        p & y == 0 && e & y == 0 ==> ((p & !x) | e) & y == 0,
        p & y != 0 && x & y == 0 ==> ((p & !x) | e) & y != 0,
        (e == y || e == 0u64) && x & y == 0 ==> ((p & !x) | e) & x == 0,
        y != 0 ==> ((p & !x) | y) & y != 0,
        (p | x) & y == 0 ==> p & y == 0 && x & y == 0,
        x & y == y & x,
{
    assert((p & x == 0 ==> p == (p & !x) | 0u64) && p & !x == (p & !x) | 0u64 && (p & x == 0 ==> p == p & !x)
        && p & !x & 0u64 == 0 && 0u64 & y == 0 && p & !x == (p & !x) | (0u64 | 0u64 | 0u64 | 0u64 | 0u64
        | 0u64) && (p & x == 0 ==> p == (p & !x) | (0u64 | 0u64 | 0u64 | 0u64 | 0u64 | 0u64)) && (e == 0u64
        || y == 0u64 ==> e & y == 0) && ((e == y || e == 0u64) && p & y == 0 ==> p & !x & e == 0) && (p & x
        == 0 ==> p | y == (p & !x) | y) && ((p & !x) | 0u64) & x == 0 && ((p & !x) | 0u64) & !x == (p & !x)
        | 0u64 && (p & y == 0 ==> ((p & !x) | 0u64) & y == 0) && (p & y != 0 && x & y == 0 ==> ((p & !x)
        | 0u64) & y != 0) && (p & y != 0 ==> y != 0) && (p & y == 0 && e & y == 0 ==> ((p & !x) | e) & y
        == 0) && (p & y != 0 && x & y == 0 ==> ((p & !x) | e) & y != 0) && ((e == y || e == 0u64) && x & y
        == 0 ==> ((p & !x) | e) & x == 0) && (y != 0 ==> ((p & !x) | y) & y != 0) && ((p | x) & y == 0 ==> p
        & y == 0 && x & y == 0) && x & y == y & x) by (bit_vector);
}

/// Six bitboards each empty or `t`, one of them `t`, have `t` as union.
proof fn lemma_or_six(e0: u64, e1: u64, e2: u64, e3: u64, e4: u64, e5: u64, t: u64)
    requires
        e0 == t || e0 == 0u64,
        e1 == t || e1 == 0u64,
        e2 == t || e2 == 0u64,
        e3 == t || e3 == 0u64,
        e4 == t || e4 == 0u64,
        e5 == t || e5 == 0u64,
        e0 == t || e1 == t || e2 == t || e3 == t || e4 == t || e5 == t,
    ensures
        e0 | e1 | e2 | e3 | e4 | e5 == t,
{
    assert((e0 == t || e0 == 0u64) && (e1 == t || e1 == 0u64) && (e2 == t || e2 == 0u64) && (e3 == t || e3
        == 0u64) && (e4 == t || e4 == 0u64) && (e5 == t || e5 == 0u64) && (e0 == t || e1 == t || e2 == t
        || e3 == t || e4 == t || e5 == t) ==> e0 | e1 | e2 | e3 | e4 | e5 == t) by (bit_vector);
}

/// Masking every bitboard with `x` and adding `e` to each distributes over
/// the union.
proof fn lemma_union_distributes(
    a0: u64,
    a1: u64,
    a2: u64,
    a3: u64,
    a4: u64,
    a5: u64,
    x: u64,
    e0: u64,
    e1: u64,
    e2: u64,
    e3: u64,
    e4: u64,
    e5: u64,
)
    ensures
        ((a0 & x) | e0) | ((a1 & x) | e1) | ((a2 & x) | e2) | ((a3 & x) | e3) | ((a4 & x) | e4) | ((a5 & x)
            | e5) == ((a0 | a1 | a2 | a3 | a4 | a5) & x) | (e0 | e1 | e2 | e3 | e4 | e5),
{
    assert(((a0 & x) | e0) | ((a1 & x) | e1) | ((a2 & x) | e2) | ((a3 & x) | e3) | ((a4 & x) | e4) | ((a5
        & x) | e5) == ((a0 | a1 | a2 | a3 | a4 | a5) & x) | (e0 | e1 | e2 | e3 | e4 | e5)) by (bit_vector);
}

/// Two reshaped bitboards stay apart.
proof fn lemma_pair_apart(a: u64, b: u64, x: u64, ea: u64, eb: u64)
    requires
        a & b == 0,
        a & x & eb == 0,
        b & x & ea == 0,
        ea & eb == 0,
    ensures
        ((a & x) | ea) & ((b & x) | eb) == 0,
{
    assert(a & b == 0 && a & x & eb == 0 && b & x & ea == 0 && ea & eb == 0 ==> ((a & x) | ea) & ((b & x)
        | eb) == 0) by (bit_vector);
}

/// A reshaped consistent board is consistent when the added squares `e`
/// are apart from each other and from what `x` keeps, and the occupancies
/// are reshaped alike.
proof fn lemma_reshaped_ok(v: BoardView, x: u64, e: spec_fn(int) -> u64, white: u64, black: u64)
    requires
        board_ok(v),
        forall|i: int, j: int| 0 <= i < 12 && 0 <= j < 12 && i != j ==> #[trigger] (e(i) & e(j)) == 0,
        forall|i: int, j: int| 0 <= i < 12 && 0 <= j < 12 ==> #[trigger] (v.pieces[i] & x & e(j)) == 0,
        white == (v.white & x) | (e(0) | e(1) | e(2) | e(3) | e(4) | e(5)),
        black == (v.black & x) | (e(6) | e(7) | e(8) | e(9) | e(10) | e(11)),
    ensures
        board_ok(reshaped(v, x, e, white, black)),
{
    let r = reshaped(v, x, e, white, black);
    assert forall|i: int, j: int| 0 <= i < 12 && 0 <= j < 12 && i != j implies #[trigger] (r.pieces[i]
        & r.pieces[j]) == 0 by {
        assert(v.pieces[i] & v.pieces[j] == 0);
        assert(v.pieces[i] & x & e(j) == 0);
        assert(v.pieces[j] & x & e(i) == 0);
        assert(e(i) & e(j) == 0);
        lemma_pair_apart(v.pieces[i], v.pieces[j], x, e(i), e(j));
    }
    lemma_union_distributes(
        v.pieces[0],
        v.pieces[1],
        v.pieces[2],
        v.pieces[3],
        v.pieces[4],
        v.pieces[5],
        x,
        e(0),
        e(1),
        e(2),
        e(3),
        e(4),
        e(5),
    );
    lemma_union_distributes(
        v.pieces[6],
        v.pieces[7],
        v.pieces[8],
        v.pieces[9],
        v.pieces[10],
        v.pieces[11],
        x,
        e(6),
        e(7),
        e(8),
        e(9),
        e(10),
        e(11),
    );
}

/// On a consistent board, a color has a piece on `square` exactly when its
/// occupancy meets it.
proof fn lemma_color_meets(v: BoardView, color: u8, square: u64)
    requires
        board_ok(v),
        is_color(color),
    ensures
        color_meets(v, color, square) == (union_of(v, color) & square != 0),
{
    let a0 = mask_of(v, PAWN, color);
    let a1 = mask_of(v, KNIGHT, color);
    let a2 = mask_of(v, BISHOP, color);
    let a3 = mask_of(v, ROOK, color);
    let a4 = mask_of(v, QUEEN, color);
    let a5 = mask_of(v, KING, color);
    assert((a0 | a1 | a2 | a3 | a4 | a5) & square != 0 <==> (a0 & square != 0 || a1 & square != 0 || a2
        & square != 0 || a3 & square != 0 || a4 & square != 0 || a5 & square != 0)) by (bit_vector);
    if union_of(v, color) & square != 0 {
        if a0 & square != 0 {
            assert(meets(v, PAWN, color, square));
        } else if a1 & square != 0 {
            assert(meets(v, KNIGHT, color, square));
        } else if a2 & square != 0 {
            assert(meets(v, BISHOP, color, square));
        } else if a3 & square != 0 {
            assert(meets(v, ROOK, color, square));
        } else if a4 & square != 0 {
            assert(meets(v, QUEEN, color, square));
        } else {
            assert(meets(v, KING, color, square));
        }
    }
    if color_meets(v, color, square) {
        let p = choose|p: u8| PAWN <= p < 7 && #[trigger] meets(v, p, color, square);
        assert(p == PAWN || p == KNIGHT || p == BISHOP || p == ROOK || p == QUEEN || p == KING);
    }
}

/// Emptying a square of a consistent board keeps it consistent, and is
/// masking every bitboard and occupancy with the square's complement.
proof fn lemma_clear_square_ok(v: BoardView, square: u64)
    requires
        board_ok(v),
    ensures
        clear_square_view(v, square) == reshaped(v, !square, |i: int| 0u64, v.white & !square, v.black & !square),
        board_ok(clear_square_view(v, square)),
{
    let c = clear_square_view(v, square);
    let r = reshaped(v, !square, |i: int| 0u64, v.white & !square, v.black & !square);
    assert forall|i: int| 0 <= i < 12 implies #[trigger] c.pieces[i] == r.pieces[i] by {
        let p = v.pieces[i];
        lemma_mask_algebra(p, square, 0u64, 0u64);
        assert(p & square == 0 ==> p == (p & !square) | 0u64);
        lemma_mask_algebra(p, square, 0u64, 0u64);
        assert((p & !square) == (p & !square) | 0u64);
    }
    assert(c.pieces =~= r.pieces);
    lemma_color_meets(v, WHITE, square);
    lemma_color_meets(v, BLACK, square);
    let w = v.white;
    let b = v.black;
    lemma_mask_algebra(w, square, 0u64, 0u64);
    assert(w & square == 0 ==> w == w & !square);
    lemma_mask_algebra(b, square, 0u64, 0u64);
    assert(b & square == 0 ==> b == b & !square);
    assert(c == r);
    let e = |i: int| 0u64;
    assert forall|i: int, j: int| 0 <= i < 12 && 0 <= j < 12 implies #[trigger] (v.pieces[i] & !square
        & e(j)) == 0 by {
        let p = v.pieces[i];
        lemma_mask_algebra(p, square, 0u64, 0u64);
        assert(p & !square & 0u64 == 0);
    }
    assert forall|i: int, j: int| 0 <= i < 12 && 0 <= j < 12 && i != j implies #[trigger] (e(i) & e(j)) == 0 by {
        lemma_mask_algebra(0u64, 0u64, 0u64, 0u64);
        assert(0u64 & 0u64 == 0);
    }
    lemma_mask_algebra(w, square, 0u64, 0u64);
    assert(w & !square == (w & !square) | (0u64 | 0u64 | 0u64 | 0u64 | 0u64 | 0u64));
    lemma_mask_algebra(b, square, 0u64, 0u64);
    assert(b & !square == (b & !square) | (0u64 | 0u64 | 0u64 | 0u64 | 0u64 | 0u64));
    lemma_reshaped_ok(v, !square, e, w & !square, b & !square);
}

/// The board after a piece of `piece` and `color` moves from `f` to `t`
/// on its bitboard and its color's occupancy.
pub open spec fn relocated(v: BoardView, piece: u8, color: u8, f: u64, t: u64) -> BoardView {
    crate::chessboard::relocate_color(
        BoardView {
            pieces: v.pieces.update(
                piece_slot(piece, color),
                crate::chessboard::relocate(v.pieces[piece_slot(piece, color)], f, t),
            ),
            ..v
        },
        color,
        f,
        t,
    )
}

/// The board after a piece of `piece` and `color` leaves `f` and a piece of
/// `landing` of that color arrives on `t`.
pub open spec fn promoted(v: BoardView, piece: u8, landing: u8, color: u8, f: u64, t: u64) -> BoardView {
    let v2 = BoardView {
        pieces: v.pieces.update(piece_slot(piece, color), v.pieces[piece_slot(piece, color)] & !f),
        ..v
    };
    let v3 = BoardView {
        pieces: v2.pieces.update(piece_slot(landing, color), v2.pieces[piece_slot(landing, color)] | t),
        ..v2
    };
    crate::chessboard::relocate_color(v3, color, f, t)
}

/// A one-square mask meets a bitboard only if it lies inside it.
proof fn lemma_square_inside(k: u64, p: u64)
    requires
        k < 64,
        p & (1u64 << k) != 0,
    ensures
        forall|q: u64| p & q == 0 ==> q & (1u64 << k) == 0,
{
    assert forall|q: u64| p & q == 0 implies q & (1u64 << k) == 0 by {
        assert(k < 64 && p & (1u64 << k) != 0 && p & q == 0 ==> q & (1u64 << k) == 0) by (bit_vector);
    }
}

/// Moving a piece of `piece` and `color` from the square `1 << k` of its
/// bitboard to squares `t` that no bitboard holds keeps a board consistent.
proof fn lemma_relocate_ok(v: BoardView, piece: u8, color: u8, k: u64, t: u64)
    requires
        board_ok(v),
        is_piece_type(piece),
        is_color(color),
        k < 64,
        mask_of(v, piece, color) & (1u64 << k) != 0,
        forall|i: int| 0 <= i < 12 ==> #[trigger] (v.pieces[i] & t) == 0,
    ensures
        board_ok(relocated(v, piece, color, 1u64 << k, t)),
        forall|i: int|
            0 <= i < 12 ==> #[trigger] relocated(v, piece, color, 1u64 << k, t).pieces[i] == (v.pieces[i] & !(1u64
                << k)) | (if i == piece_slot(piece, color) {
                t
            } else {
                0u64
            }),
{
    let f = 1u64 << k;
    let s = piece_slot(piece, color);
    let e = |i: int| if i == s {
        t
    } else {
        0u64
    };
    let after = crate::chessboard::relocate_color(
        BoardView { pieces: v.pieces.update(s, crate::chessboard::relocate(v.pieces[s], f, t)), ..v },
        color,
        f,
        t,
    );
    lemma_square_inside(k, v.pieces[s]);
    assert forall|i: int| 0 <= i < 12 && i != s implies #[trigger] (v.pieces[i] & f) == 0 by {
        assert(v.pieces[s] & v.pieces[i] == 0);
    }
    assert forall|i: int| 0 <= i < 12 implies #[trigger] after.pieces[i] == (v.pieces[i] & !f) | e(i) by {
        let p = v.pieces[i];
        if i == s {
            assert((p & !f) | t == (p & !f) | t);
        } else {
            lemma_mask_algebra(p, f, 0u64, 0u64);
            assert(p & f == 0 ==> p == (p & !f) | 0u64);
        }
    }
    let w = v.white;
    let b = v.black;
    let (nw, nb) = if color == WHITE {
        ((w & !f) | t, b)
    } else {
        (w, (b & !f) | t)
    };
    // The other color's occupancy does not hold `f`.
    if color == WHITE {
        lemma_color_meets(v, BLACK, f);
        assert(!color_meets(v, BLACK, f)) by {
            if color_meets(v, BLACK, f) {
                let p = choose|p: u8| PAWN <= p < 7 && #[trigger] meets(v, p, BLACK, f);
                assert(v.pieces[piece_slot(p, BLACK)] & f == 0);
            }
        }
        lemma_mask_algebra(b, f, 0u64, 0u64);
        assert(b & f == 0 ==> b == (b & !f) | (0u64 | 0u64 | 0u64 | 0u64 | 0u64 | 0u64));
        let es = e(0) | e(1) | e(2) | e(3) | e(4) | e(5);
        lemma_or_six(e(0), e(1), e(2), e(3), e(4), e(5), t);
        assert(after == reshaped(v, !f, e, nw, nb)) by {
            assert(after.pieces =~= reshaped(v, !f, e, nw, nb).pieces);
        }
    } else {
        lemma_color_meets(v, WHITE, f);
        assert(!color_meets(v, WHITE, f)) by {
            if color_meets(v, WHITE, f) {
                let p = choose|p: u8| PAWN <= p < 7 && #[trigger] meets(v, p, WHITE, f);
                assert(v.pieces[piece_slot(p, WHITE)] & f == 0);
            }
        }
        lemma_mask_algebra(w, f, 0u64, 0u64);
        assert(w & f == 0 ==> w == (w & !f) | (0u64 | 0u64 | 0u64 | 0u64 | 0u64 | 0u64));
        let es = e(6) | e(7) | e(8) | e(9) | e(10) | e(11);
        lemma_or_six(e(6), e(7), e(8), e(9), e(10), e(11), t);
        assert(after == reshaped(v, !f, e, nw, nb)) by {
            assert(after.pieces =~= reshaped(v, !f, e, nw, nb).pieces);
        }
    }
    assert forall|i: int, j: int| 0 <= i < 12 && 0 <= j < 12 && i != j implies #[trigger] (e(i) & e(j)) == 0 by {
        let ei = e(i);
        let ej = e(j);
        assert(ei == 0u64 || ej == 0u64);
        lemma_mask_algebra(0u64, 0u64, ej, ei);
        assert(ei == 0u64 || ej == 0u64 ==> ei & ej == 0);
    }
    assert forall|i: int, j: int| 0 <= i < 12 && 0 <= j < 12 implies #[trigger] (v.pieces[i] & !f & e(j)) == 0 by {
        let p = v.pieces[i];
        let ej = e(j);
        assert(p & t == 0);
        lemma_mask_algebra(p, f, t, ej);
        assert((ej == t || ej == 0u64) && p & t == 0 ==> p & !f & ej == 0);
    }
    lemma_reshaped_ok(v, !f, e, nw, nb);
}

/// Promoting a pawn of `color` from the square `1 << k` of its bitboard to
/// a piece of type `landing` on squares `t` that no bitboard holds keeps a
/// board consistent.
proof fn lemma_promote_ok(v: BoardView, piece: u8, landing: u8, color: u8, k: u64, t: u64)
    requires
        board_ok(v),
        is_piece_type(piece),
        is_piece_type(landing),
        is_color(color),
        k < 64,
        mask_of(v, piece, color) & (1u64 << k) != 0,
        forall|i: int| 0 <= i < 12 ==> #[trigger] (v.pieces[i] & t) == 0,
    ensures
        board_ok(promoted(v, piece, landing, color, 1u64 << k, t)),
        forall|i: int|
            0 <= i < 12 ==> #[trigger] promoted(v, piece, landing, color, 1u64 << k, t).pieces[i] == (v.pieces[i]
                & !(1u64 << k)) | (if i == piece_slot(landing, color) {
                t
            } else {
                0u64
            }),
{
    let f = 1u64 << k;
    let s = piece_slot(piece, color);
    let ls = piece_slot(landing, color);
    let e = |i: int| if i == ls {
        t
    } else {
        0u64
    };
    let v2 = BoardView { pieces: v.pieces.update(s, v.pieces[s] & !f), ..v };
    let v3 = BoardView { pieces: v2.pieces.update(ls, v2.pieces[ls] | t), ..v2 };
    let after = crate::chessboard::relocate_color(v3, color, f, t);
    lemma_square_inside(k, v.pieces[s]);
    assert forall|i: int| 0 <= i < 12 && i != s implies #[trigger] (v.pieces[i] & f) == 0 by {
        assert(v.pieces[s] & v.pieces[i] == 0);
    }
    assert forall|i: int| 0 <= i < 12 implies #[trigger] after.pieces[i] == (v.pieces[i] & !f) | e(i) by {
        let p = v.pieces[i];
        if i == ls && i == s {
            assert((p & !f) | t == (p & !f) | t);
        } else if i == ls {
            lemma_mask_algebra(p, f, t, 0u64);
            assert(p & f == 0 ==> p | t == (p & !f) | t);
        } else if i == s {
            lemma_mask_algebra(p, f, 0u64, 0u64);
            assert((p & !f) == (p & !f) | 0u64);
        } else {
            lemma_mask_algebra(p, f, 0u64, 0u64);
            assert(p & f == 0 ==> p == (p & !f) | 0u64);
        }
    }
    let w = v.white;
    let b = v.black;
    let (nw, nb) = if color == WHITE {
        ((w & !f) | t, b)
    } else {
        (w, (b & !f) | t)
    };
    // The other color's occupancy does not hold `f`.
    if color == WHITE {
        lemma_color_meets(v, BLACK, f);
        assert(!color_meets(v, BLACK, f)) by {
            if color_meets(v, BLACK, f) {
                let p = choose|p: u8| PAWN <= p < 7 && #[trigger] meets(v, p, BLACK, f);
                assert(v.pieces[piece_slot(p, BLACK)] & f == 0);
            }
        }
        lemma_mask_algebra(b, f, 0u64, 0u64);
        assert(b & f == 0 ==> b == (b & !f) | (0u64 | 0u64 | 0u64 | 0u64 | 0u64 | 0u64));
        let es = e(0) | e(1) | e(2) | e(3) | e(4) | e(5);
        lemma_or_six(e(0), e(1), e(2), e(3), e(4), e(5), t);
        assert(after == reshaped(v, !f, e, nw, nb)) by {
            assert(after.pieces =~= reshaped(v, !f, e, nw, nb).pieces);
        }
    } else {
        lemma_color_meets(v, WHITE, f);
        assert(!color_meets(v, WHITE, f)) by {
            if color_meets(v, WHITE, f) {
                let p = choose|p: u8| PAWN <= p < 7 && #[trigger] meets(v, p, WHITE, f);
                assert(v.pieces[piece_slot(p, WHITE)] & f == 0);
            }
        }
        lemma_mask_algebra(w, f, 0u64, 0u64);
        assert(w & f == 0 ==> w == (w & !f) | (0u64 | 0u64 | 0u64 | 0u64 | 0u64 | 0u64));
        let es = e(6) | e(7) | e(8) | e(9) | e(10) | e(11);
        lemma_or_six(e(6), e(7), e(8), e(9), e(10), e(11), t);
        assert(after == reshaped(v, !f, e, nw, nb)) by {
            assert(after.pieces =~= reshaped(v, !f, e, nw, nb).pieces);
        }
    }
    assert forall|i: int, j: int| 0 <= i < 12 && 0 <= j < 12 && i != j implies #[trigger] (e(i) & e(j)) == 0 by {
        let ei = e(i);
        let ej = e(j);
        assert(ei == 0u64 || ej == 0u64);
        lemma_mask_algebra(0u64, 0u64, ej, ei);
        assert(ei == 0u64 || ej == 0u64 ==> ei & ej == 0);
    }
    assert forall|i: int, j: int| 0 <= i < 12 && 0 <= j < 12 implies #[trigger] (v.pieces[i] & !f & e(j)) == 0 by {
        let p = v.pieces[i];
        let ej = e(j);
        assert(p & t == 0);
        lemma_mask_algebra(p, f, t, ej);
        assert((ej == t || ej == 0u64) && p & t == 0 ==> p & !f & ej == 0);
    }
    lemma_reshaped_ok(v, !f, e, nw, nb);
}

/// A square that a union of six bitboards misses, each of them misses.
proof fn lemma_union_misses(a0: u64, a1: u64, a2: u64, a3: u64, a4: u64, a5: u64, q: u64)
    ensures
        (a0 | a1 | a2 | a3 | a4 | a5) & q == 0 ==> a0 & q == 0 && a1 & q == 0 && a2 & q == 0 && a3 & q == 0
            && a4 & q == 0 && a5 & q == 0,
{
    assert((a0 | a1 | a2 | a3 | a4 | a5) & q == 0 ==> a0 & q == 0 && a1 & q == 0 && a2 & q == 0 && a3 & q == 0
        && a4 & q == 0 && a5 & q == 0) by (bit_vector);
}

/// A square that neither occupancy of a consistent board holds is on none
/// of its bitboards.
proof fn lemma_empty_square(v: BoardView, q: u64)
    requires
        board_ok(v),
        (v.white | v.black) & q == 0,
    ensures
        forall|i: int| 0 <= i < 12 ==> #[trigger] (v.pieces[i] & q) == 0,
{
    lemma_union_misses(v.pieces[0], v.pieces[1], v.pieces[2], v.pieces[3], v.pieces[4], v.pieces[5], q);
    lemma_union_misses(v.pieces[6], v.pieces[7], v.pieces[8], v.pieces[9], v.pieces[10], v.pieces[11], q);
    let w = v.white;
    let b = v.black;
    lemma_mask_algebra(w, b, q, 0u64);
    assert((w | b) & q == 0 ==> w & q == 0 && b & q == 0);
}

/// What playing a move asks of a board for it to stay consistent: origin
/// and destination apart, the mover on the origin; for en passant, the
/// captured square apart from the origin; for castling, the rook alone on
/// the one square `rook_from`, apart from the origin and the destination,
/// and `rook_to` empty and apart from the destination; for a promotion, a
/// promoted piece type that has a bitboard.
pub open spec fn move_fits(v: BoardView, piece: u8, color: u8, mv: (u16, MoveType)) -> bool {
    let from = 1u64 << from_index_of(mv.0);
    let to = 1u64 << to_index_of(mv.0);
    &&& from_index_of(mv.0) != to_index_of(mv.0)
    &&& mask_of(v, piece, color) & from != 0
    &&& match mv.1 {
        MoveType::Promotion { promoted_piece } => is_piece_type(promoted_piece),
        MoveType::EnPassant { captured_square } => captured_square & from == 0,
        MoveType::Castling { rook_from, rook_to } => {
            &&& rook_from == 1u64 << crate::bits::low_index(rook_from)
            &&& mask_of(v, ROOK, color) & rook_from != 0
            &&& rook_from & from == 0
            &&& rook_from & to == 0
            &&& (v.white | v.black) & rook_to == 0
            &&& rook_to & to == 0
        },
        _ => true,
    }
}

/// The piece type that lands on the destination of a move: the promoted
/// piece of a promotion, the mover otherwise.
pub open spec fn landing_piece(piece: u8, mv: (u16, MoveType)) -> u8 {
    match mv.1 {
        MoveType::Promotion { promoted_piece } => promoted_piece,
        _ => piece,
    }
}

/// Playing a piece keeps a board consistent: afterwards no square is on two
/// bitboards and each color's occupancy is the union of its six bitboards;
/// the piece (or its promotion) stands on the destination, nothing is left
/// on the origin, and the en passant file is that of a pawn's double push,
/// 0 after any other move.
pub proof fn lemma_move_piece_keeps_board_ok(v: BoardView, piece: u8, color: u8, mv: (u16, MoveType))
    requires
        board_ok(v),
        is_piece_type(piece),
        is_color(color),
        move_fits(v, piece, color, mv),
    ensures
        board_ok(move_piece_view(v, piece, color, mv)),
        mask_of(move_piece_view(v, piece, color, mv), landing_piece(piece, mv), color) & (1u64
            << to_index_of(mv.0)) != 0,
        forall|i: int|
            0 <= i < 12 ==> #[trigger] (move_piece_view(v, piece, color, mv).pieces[i] & (1u64 << from_index_of(
                mv.0,
            ))) == 0,
        move_piece_view(v, piece, color, mv).en_passant == (if mv.1 is DoublePawnPush && piece == PAWN {
            (from_index_of(mv.0) % 8 + 1) as u8
        } else {
            0u8
        }),
{
    crate::chess_move::lemma_fields_in_range(mv.0);
    let fi = from_index_of(mv.0) as u64;
    let ti = to_index_of(mv.0) as u64;
    let from = 1u64 << fi;
    let to = 1u64 << ti;
    assert(fi < 64 && ti < 64 && fi != ti ==> (1u64 << fi) & (1u64 << ti) == 0 && (1u64 << ti) != 0 && (1u64
        << fi) != 0) by (bit_vector);
    let after = move_piece_view(v, piece, color, mv);
    let s = piece_slot(piece, color);
    let v0 = BoardView { en_passant: 0u8, ..v };
    let v1 = clear_square_view(v0, to);
    lemma_clear_square_ok(v0, to);
    assert forall|i: int| 0 <= i < 12 implies #[trigger] (v1.pieces[i] & to) == 0 && v1.pieces[i] & !to
        == v1.pieces[i] && (v0.pieces[i] & from == 0 ==> v1.pieces[i] & from == 0) by {
        let p = v0.pieces[i];
        assert(v1.pieces[i] == (p & !to) | 0u64);
        lemma_mask_algebra(p, to, from, 0u64);
        assert(((p & !to) | 0u64) & to == 0 && ((p & !to) | 0u64) & !to == (p & !to) | 0u64 && (p & from == 0
            ==> ((p & !to) | 0u64) & from == 0));
    }
    assert(mask_of(v1, piece, color) & from != 0) by {
        let p = v0.pieces[s];
        assert(v1.pieces[s] == (p & !to) | 0u64);
        lemma_mask_algebra(p, to, from, 0u64);
        assert(p & from != 0 && from & to == 0 ==> ((p & !to) | 0u64) & from != 0);
    }
    let base = match mv.1 {
        MoveType::EnPassant { captured_square } => clear_square_view(v1, captured_square),
        MoveType::Castling { rook_from, rook_to } => relocated(v1, ROOK, color, rook_from, rook_to),
        MoveType::DoublePawnPush => BoardView { en_passant: en_passant_after(v1, from, piece, color), ..v1 },
        _ => v1,
    };
    match mv.1 {
        MoveType::EnPassant { captured_square } => {
            let cap = captured_square;
            lemma_clear_square_ok(v1, cap);
            assert forall|i: int| 0 <= i < 12 implies #[trigger] (base.pieces[i] & to) == 0 by {
                let p = v1.pieces[i];
                assert(base.pieces[i] == (p & !cap) | 0u64);
                lemma_mask_algebra(p, cap, to, 0u64);
                assert(p & to == 0 ==> ((p & !cap) | 0u64) & to == 0);
            }
            assert(mask_of(base, piece, color) & from != 0) by {
                let p = v1.pieces[s];
                assert(base.pieces[s] == (p & !cap) | 0u64);
                lemma_mask_algebra(p, cap, from, 0u64);
                assert(p & from != 0 && cap & from == 0 ==> ((p & !cap) | 0u64) & from != 0);
            }
        },
        MoveType::Castling { rook_from, rook_to } => {
            let kr = crate::bits::low_index(rook_from) as u64;
            assert(rook_from != 0) by {
                let m = mask_of(v, ROOK, color);
                lemma_mask_algebra(m, 0u64, rook_from, 0u64);
                assert(m & rook_from != 0 ==> rook_from != 0);
            }
            crate::bits::lemma_low_index(rook_from);
            lemma_empty_square(v, rook_to);
            assert forall|i: int| 0 <= i < 12 implies #[trigger] (v1.pieces[i] & rook_to) == 0 by {
                let p = v0.pieces[i];
                assert(v1.pieces[i] == (p & !to) | 0u64);
                lemma_mask_algebra(p, to, rook_to, 0u64);
                assert(p & rook_to == 0 ==> ((p & !to) | 0u64) & rook_to == 0);
            }
            assert(mask_of(v1, ROOK, color) & rook_from != 0) by {
                let p = v0.pieces[piece_slot(ROOK, color)];
                assert(v1.pieces[piece_slot(ROOK, color)] == (p & !to) | 0u64);
                lemma_mask_algebra(p, to, rook_from, 0u64);
                assert(p & rook_from != 0 && rook_from & to == 0 ==> ((p & !to) | 0u64) & rook_from != 0);
            }
            lemma_relocate_ok(v1, ROOK, color, kr, rook_to);
            let r = piece_slot(ROOK, color);
            assert forall|i: int| 0 <= i < 12 implies #[trigger] (base.pieces[i] & to) == 0 by {
                let p = v1.pieces[i];
                let e = if i == r {
                    rook_to
                } else {
                    0u64
                };
                assert(base.pieces[i] == (p & !rook_from) | e);
                lemma_mask_algebra(p, rook_from, to, e);
                assert(p & to == 0 && e & to == 0 ==> ((p & !rook_from) | e) & to == 0);
                assert(e & to == 0) by {
                    lemma_mask_algebra(0u64, 0u64, to, 0u64);
                    assert(0u64 & to == 0);
                }
            }
            assert(mask_of(base, piece, color) & from != 0) by {
                let p = v1.pieces[s];
                let e = if s == r {
                    rook_to
                } else {
                    0u64
                };
                assert(base.pieces[s] == (p & !rook_from) | e);
                lemma_mask_algebra(p, rook_from, from, e);
                assert(p & from != 0 && rook_from & from == 0 ==> ((p & !rook_from) | e) & from != 0);
            }
        },
        _ => {},
    }
    match mv.1 {
        MoveType::Promotion { promoted_piece } => {
            assert(after == promoted(v1, piece, promoted_piece, color, from, to));
            lemma_promote_ok(v1, piece, promoted_piece, color, fi, to);
        },
        _ => {
            assert(after == relocated(base, piece, color, from, to));
            lemma_relocate_ok(base, piece, color, fi, to);
        },
    }
    let ls = piece_slot(landing_piece(piece, mv), color);
    assert forall|i: int| 0 <= i < 12 implies #[trigger] (after.pieces[i] & from) == 0 by {
        let b = match mv.1 {
            MoveType::Promotion { promoted_piece } => v1.pieces[i],
            _ => base.pieces[i],
        };
        let e = if i == ls {
            to
        } else {
            0u64
        };
        assert(after.pieces[i] == (b & !from) | e);
        lemma_mask_algebra(b, from, to, e);
        assert((e == to || e == 0u64) && from & to == 0 ==> ((b & !from) | e) & from == 0);
    }
    assert(mask_of(after, landing_piece(piece, mv), color) & to != 0) by {
        let b = match mv.1 {
            MoveType::Promotion { promoted_piece } => v1.pieces[ls],
            _ => base.pieces[ls],
        };
        assert(after.pieces[ls] == (b & !from) | to);
        lemma_mask_algebra(b, from, to, 0u64);
        assert(to != 0 ==> ((b & !from) | to) & to != 0);
    }
    if mv.1 is DoublePawnPush {
        crate::bits::lemma_low_index_single(fi);
    }
}

/// The starting position is consistent, so every position reached from it
/// by playing pieces as [`move_fits`] allows is consistent too.
pub proof fn lemma_start_ok()
    ensures
        board_ok(crate::chessboard::starting_view()),
{
    let v = crate::chessboard::starting_view();
    assert(v.pieces.len() == 12);
    assert forall|i: int, j: int| 0 <= i < 12 && 0 <= j < 12 && i != j implies #[trigger] (v.pieces[i]
        & v.pieces[j]) == 0 by {
        if i == 0 {
            assert(v.pieces[i] == 0x0000_0000_0000_FF00u64);
        }
        if i == 1 {
            assert(v.pieces[i] == 0x0000_0000_0000_0042u64);
        }
        if i == 2 {
            assert(v.pieces[i] == 0x0000_0000_0000_0024u64);
        }
        if i == 3 {
            assert(v.pieces[i] == 0x0000_0000_0000_0081u64);
        }
        if i == 4 {
            assert(v.pieces[i] == 0x0000_0000_0000_0010u64);
        }
        if i == 5 {
            assert(v.pieces[i] == 0x0000_0000_0000_0008u64);
        }
        if i == 6 {
            assert(v.pieces[i] == 0x00FF_0000_0000_0000u64);
        }
        if i == 7 {
            assert(v.pieces[i] == 0x4200_0000_0000_0000u64);
        }
        if i == 8 {
            assert(v.pieces[i] == 0x2400_0000_0000_0000u64);
        }
        if i == 9 {
            assert(v.pieces[i] == 0x8100_0000_0000_0000u64);
        }
        if i == 10 {
            assert(v.pieces[i] == 0x1000_0000_0000_0000u64);
        }
        if i == 11 {
            assert(v.pieces[i] == 0x0800_0000_0000_0000u64);
        }
        if j == 0 {
            assert(v.pieces[j] == 0x0000_0000_0000_FF00u64);
        }
        if j == 1 {
            assert(v.pieces[j] == 0x0000_0000_0000_0042u64);
        }
        if j == 2 {
            assert(v.pieces[j] == 0x0000_0000_0000_0024u64);
        }
        if j == 3 {
            assert(v.pieces[j] == 0x0000_0000_0000_0081u64);
        }
        if j == 4 {
            assert(v.pieces[j] == 0x0000_0000_0000_0010u64);
        }
        if j == 5 {
            assert(v.pieces[j] == 0x0000_0000_0000_0008u64);
        }
        if j == 6 {
            assert(v.pieces[j] == 0x00FF_0000_0000_0000u64);
        }
        if j == 7 {
            assert(v.pieces[j] == 0x4200_0000_0000_0000u64);
        }
        if j == 8 {
            assert(v.pieces[j] == 0x2400_0000_0000_0000u64);
        }
        if j == 9 {
            assert(v.pieces[j] == 0x8100_0000_0000_0000u64);
        }
        if j == 10 {
            assert(v.pieces[j] == 0x1000_0000_0000_0000u64);
        }
        if j == 11 {
            assert(v.pieces[j] == 0x0800_0000_0000_0000u64);
        }
        let a = v.pieces[i];
        let b = v.pieces[j];
        assert((a == 0x0000_0000_0000_FF00u64 && b == 0x0000_0000_0000_0042u64 ==> a & b == 0) && (a == 0x0000_0000_0000_FF00u64 && b == 0x0000_0000_0000_0024u64 ==> a & b == 0) && (a == 0x0000_0000_0000_FF00u64 && b == 0x0000_0000_0000_0081u64 ==> a & b == 0) && (a == 0x0000_0000_0000_FF00u64 && b == 0x0000_0000_0000_0010u64 ==> a & b == 0) && (a == 0x0000_0000_0000_FF00u64 && b == 0x0000_0000_0000_0008u64 ==> a & b == 0) && (a == 0x0000_0000_0000_FF00u64 && b == 0x00FF_0000_0000_0000u64 ==> a & b == 0) && (a == 0x0000_0000_0000_FF00u64 && b == 0x4200_0000_0000_0000u64 ==> a & b == 0) && (a == 0x0000_0000_0000_FF00u64 && b == 0x2400_0000_0000_0000u64 ==> a & b == 0) && (a == 0x0000_0000_0000_FF00u64 && b == 0x8100_0000_0000_0000u64 ==> a & b == 0) && (a == 0x0000_0000_0000_FF00u64 && b == 0x1000_0000_0000_0000u64 ==> a & b == 0) && (a == 0x0000_0000_0000_FF00u64 && b == 0x0800_0000_0000_0000u64 ==> a & b == 0) && (a == 0x0000_0000_0000_0042u64 && b == 0x0000_0000_0000_FF00u64 ==> a & b == 0) && (a == 0x0000_0000_0000_0042u64 && b == 0x0000_0000_0000_0024u64 ==> a & b == 0) && (a == 0x0000_0000_0000_0042u64 && b == 0x0000_0000_0000_0081u64 ==> a & b == 0) && (a == 0x0000_0000_0000_0042u64 && b == 0x0000_0000_0000_0010u64 ==> a & b == 0) && (a == 0x0000_0000_0000_0042u64 && b == 0x0000_0000_0000_0008u64 ==> a & b == 0) && (a == 0x0000_0000_0000_0042u64 && b == 0x00FF_0000_0000_0000u64 ==> a & b == 0) && (a == 0x0000_0000_0000_0042u64 && b == 0x4200_0000_0000_0000u64 ==> a & b == 0) && (a == 0x0000_0000_0000_0042u64 && b == 0x2400_0000_0000_0000u64 ==> a & b == 0) && (a == 0x0000_0000_0000_0042u64 && b == 0x8100_0000_0000_0000u64 ==> a & b == 0) && (a == 0x0000_0000_0000_0042u64 && b == 0x1000_0000_0000_0000u64 ==> a & b == 0) && (a == 0x0000_0000_0000_0042u64 && b == 0x0800_0000_0000_0000u64 ==> a & b == 0) && (a == 0x0000_0000_0000_0024u64 && b == 0x0000_0000_0000_FF00u64 ==> a & b == 0) && (a == 0x0000_0000_0000_0024u64 && b == 0x0000_0000_0000_0042u64 ==> a & b == 0) && (a == 0x0000_0000_0000_0024u64 && b == 0x0000_0000_0000_0081u64 ==> a & b == 0) && (a == 0x0000_0000_0000_0024u64 && b == 0x0000_0000_0000_0010u64 ==> a & b == 0) && (a == 0x0000_0000_0000_0024u64 && b == 0x0000_0000_0000_0008u64 ==> a & b == 0) && (a == 0x0000_0000_0000_0024u64 && b == 0x00FF_0000_0000_0000u64 ==> a & b == 0) && (a == 0x0000_0000_0000_0024u64 && b == 0x4200_0000_0000_0000u64 ==> a & b == 0) && (a == 0x0000_0000_0000_0024u64 && b == 0x2400_0000_0000_0000u64 ==> a & b == 0) && (a == 0x0000_0000_0000_0024u64 && b == 0x8100_0000_0000_0000u64 ==> a & b == 0) && (a == 0x0000_0000_0000_0024u64 && b == 0x1000_0000_0000_0000u64 ==> a & b == 0) && (a == 0x0000_0000_0000_0024u64 && b == 0x0800_0000_0000_0000u64 ==> a & b == 0) && (a == 0x0000_0000_0000_0081u64 && b == 0x0000_0000_0000_FF00u64 ==> a & b == 0) && (a == 0x0000_0000_0000_0081u64 && b == 0x0000_0000_0000_0042u64 ==> a & b == 0) && (a == 0x0000_0000_0000_0081u64 && b == 0x0000_0000_0000_0024u64 ==> a & b == 0) && (a == 0x0000_0000_0000_0081u64 && b == 0x0000_0000_0000_0010u64 ==> a & b == 0) && (a == 0x0000_0000_0000_0081u64 && b == 0x0000_0000_0000_0008u64 ==> a & b == 0) && (a == 0x0000_0000_0000_0081u64 && b == 0x00FF_0000_0000_0000u64 ==> a & b == 0) && (a == 0x0000_0000_0000_0081u64 && b == 0x4200_0000_0000_0000u64 ==> a & b == 0) && (a == 0x0000_0000_0000_0081u64 && b == 0x2400_0000_0000_0000u64 ==> a & b == 0) && (a == 0x0000_0000_0000_0081u64 && b == 0x8100_0000_0000_0000u64 ==> a & b == 0) && (a == 0x0000_0000_0000_0081u64 && b == 0x1000_0000_0000_0000u64 ==> a & b == 0) && (a == 0x0000_0000_0000_0081u64 && b == 0x0800_0000_0000_0000u64 ==> a & b == 0) && (a == 0x0000_0000_0000_0010u64 && b == 0x0000_0000_0000_FF00u64 ==> a & b == 0) && (a == 0x0000_0000_0000_0010u64 && b == 0x0000_0000_0000_0042u64 ==> a & b == 0) && (a == 0x0000_0000_0000_0010u64 && b == 0x0000_0000_0000_0024u64 ==> a & b == 0) && (a == 0x0000_0000_0000_0010u64 && b == 0x0000_0000_0000_0081u64 ==> a & b == 0) && (a == 0x0000_0000_0000_0010u64 && b == 0x0000_0000_0000_0008u64 ==> a & b == 0) && (a == 0x0000_0000_0000_0010u64 && b == 0x00FF_0000_0000_0000u64 ==> a & b == 0) && (a == 0x0000_0000_0000_0010u64 && b == 0x4200_0000_0000_0000u64 ==> a & b == 0) && (a == 0x0000_0000_0000_0010u64 && b == 0x2400_0000_0000_0000u64 ==> a & b == 0) && (a == 0x0000_0000_0000_0010u64 && b == 0x8100_0000_0000_0000u64 ==> a & b == 0) && (a == 0x0000_0000_0000_0010u64 && b == 0x1000_0000_0000_0000u64 ==> a & b == 0) && (a == 0x0000_0000_0000_0010u64 && b == 0x0800_0000_0000_0000u64 ==> a & b == 0) && (a == 0x0000_0000_0000_0008u64 && b == 0x0000_0000_0000_FF00u64 ==> a & b == 0) && (a == 0x0000_0000_0000_0008u64 && b == 0x0000_0000_0000_0042u64 ==> a & b == 0) && (a == 0x0000_0000_0000_0008u64 && b == 0x0000_0000_0000_0024u64 ==> a & b == 0) && (a == 0x0000_0000_0000_0008u64 && b == 0x0000_0000_0000_0081u64 ==> a & b == 0) && (a == 0x0000_0000_0000_0008u64 && b == 0x0000_0000_0000_0010u64 ==> a & b == 0) && (a == 0x0000_0000_0000_0008u64 && b == 0x00FF_0000_0000_0000u64 ==> a & b == 0) && (a == 0x0000_0000_0000_0008u64 && b == 0x4200_0000_0000_0000u64 ==> a & b == 0) && (a == 0x0000_0000_0000_0008u64 && b == 0x2400_0000_0000_0000u64 ==> a & b == 0) && (a == 0x0000_0000_0000_0008u64 && b == 0x8100_0000_0000_0000u64 ==> a & b == 0) && (a == 0x0000_0000_0000_0008u64 && b == 0x1000_0000_0000_0000u64 ==> a & b == 0) && (a == 0x0000_0000_0000_0008u64 && b == 0x0800_0000_0000_0000u64 ==> a & b == 0) && (a == 0x00FF_0000_0000_0000u64 && b == 0x0000_0000_0000_FF00u64 ==> a & b == 0) && (a == 0x00FF_0000_0000_0000u64 && b == 0x0000_0000_0000_0042u64 ==> a & b == 0) && (a == 0x00FF_0000_0000_0000u64 && b == 0x0000_0000_0000_0024u64 ==> a & b == 0) && (a == 0x00FF_0000_0000_0000u64 && b == 0x0000_0000_0000_0081u64 ==> a & b == 0) && (a == 0x00FF_0000_0000_0000u64 && b == 0x0000_0000_0000_0010u64 ==> a & b == 0) && (a == 0x00FF_0000_0000_0000u64 && b == 0x0000_0000_0000_0008u64 ==> a & b == 0) && (a == 0x00FF_0000_0000_0000u64 && b == 0x4200_0000_0000_0000u64 ==> a & b == 0) && (a == 0x00FF_0000_0000_0000u64 && b == 0x2400_0000_0000_0000u64 ==> a & b == 0) && (a == 0x00FF_0000_0000_0000u64 && b == 0x8100_0000_0000_0000u64 ==> a & b == 0) && (a == 0x00FF_0000_0000_0000u64 && b == 0x1000_0000_0000_0000u64 ==> a & b == 0) && (a == 0x00FF_0000_0000_0000u64 && b == 0x0800_0000_0000_0000u64 ==> a & b == 0) && (a == 0x4200_0000_0000_0000u64 && b == 0x0000_0000_0000_FF00u64 ==> a & b == 0) && (a == 0x4200_0000_0000_0000u64 && b == 0x0000_0000_0000_0042u64 ==> a & b == 0) && (a == 0x4200_0000_0000_0000u64 && b == 0x0000_0000_0000_0024u64 ==> a & b == 0) && (a == 0x4200_0000_0000_0000u64 && b == 0x0000_0000_0000_0081u64 ==> a & b == 0) && (a == 0x4200_0000_0000_0000u64 && b == 0x0000_0000_0000_0010u64 ==> a & b == 0) && (a == 0x4200_0000_0000_0000u64 && b == 0x0000_0000_0000_0008u64 ==> a & b == 0) && (a == 0x4200_0000_0000_0000u64 && b == 0x00FF_0000_0000_0000u64 ==> a & b == 0) && (a == 0x4200_0000_0000_0000u64 && b == 0x2400_0000_0000_0000u64 ==> a & b == 0) && (a == 0x4200_0000_0000_0000u64 && b == 0x8100_0000_0000_0000u64 ==> a & b == 0) && (a == 0x4200_0000_0000_0000u64 && b == 0x1000_0000_0000_0000u64 ==> a & b == 0) && (a == 0x4200_0000_0000_0000u64 && b == 0x0800_0000_0000_0000u64 ==> a & b == 0) && (a == 0x2400_0000_0000_0000u64 && b == 0x0000_0000_0000_FF00u64 ==> a & b == 0) && (a == 0x2400_0000_0000_0000u64 && b == 0x0000_0000_0000_0042u64 ==> a & b == 0) && (a == 0x2400_0000_0000_0000u64 && b == 0x0000_0000_0000_0024u64 ==> a & b == 0) && (a == 0x2400_0000_0000_0000u64 && b == 0x0000_0000_0000_0081u64 ==> a & b == 0) && (a == 0x2400_0000_0000_0000u64 && b == 0x0000_0000_0000_0010u64 ==> a & b == 0) && (a == 0x2400_0000_0000_0000u64 && b == 0x0000_0000_0000_0008u64 ==> a & b == 0) && (a == 0x2400_0000_0000_0000u64 && b == 0x00FF_0000_0000_0000u64 ==> a & b == 0) && (a == 0x2400_0000_0000_0000u64 && b == 0x4200_0000_0000_0000u64 ==> a & b == 0) && (a == 0x2400_0000_0000_0000u64 && b == 0x8100_0000_0000_0000u64 ==> a & b == 0) && (a == 0x2400_0000_0000_0000u64 && b == 0x1000_0000_0000_0000u64 ==> a & b == 0) && (a == 0x2400_0000_0000_0000u64 && b == 0x0800_0000_0000_0000u64 ==> a & b == 0) && (a == 0x8100_0000_0000_0000u64 && b == 0x0000_0000_0000_FF00u64 ==> a & b == 0) && (a == 0x8100_0000_0000_0000u64 && b == 0x0000_0000_0000_0042u64 ==> a & b == 0) && (a == 0x8100_0000_0000_0000u64 && b == 0x0000_0000_0000_0024u64 ==> a & b == 0) && (a == 0x8100_0000_0000_0000u64 && b == 0x0000_0000_0000_0081u64 ==> a & b == 0) && (a == 0x8100_0000_0000_0000u64 && b == 0x0000_0000_0000_0010u64 ==> a & b == 0) && (a == 0x8100_0000_0000_0000u64 && b == 0x0000_0000_0000_0008u64 ==> a & b == 0) && (a == 0x8100_0000_0000_0000u64 && b == 0x00FF_0000_0000_0000u64 ==> a & b == 0) && (a == 0x8100_0000_0000_0000u64 && b == 0x4200_0000_0000_0000u64 ==> a & b == 0) && (a == 0x8100_0000_0000_0000u64 && b == 0x2400_0000_0000_0000u64 ==> a & b == 0) && (a == 0x8100_0000_0000_0000u64 && b == 0x1000_0000_0000_0000u64 ==> a & b == 0) && (a == 0x8100_0000_0000_0000u64 && b == 0x0800_0000_0000_0000u64 ==> a & b == 0) && (a == 0x1000_0000_0000_0000u64 && b == 0x0000_0000_0000_FF00u64 ==> a & b == 0) && (a == 0x1000_0000_0000_0000u64 && b == 0x0000_0000_0000_0042u64 ==> a & b == 0) && (a == 0x1000_0000_0000_0000u64 && b == 0x0000_0000_0000_0024u64 ==> a & b == 0) && (a == 0x1000_0000_0000_0000u64 && b == 0x0000_0000_0000_0081u64 ==> a & b == 0) && (a == 0x1000_0000_0000_0000u64 && b == 0x0000_0000_0000_0010u64 ==> a & b == 0) && (a == 0x1000_0000_0000_0000u64 && b == 0x0000_0000_0000_0008u64 ==> a & b == 0) && (a == 0x1000_0000_0000_0000u64 && b == 0x00FF_0000_0000_0000u64 ==> a & b == 0) && (a == 0x1000_0000_0000_0000u64 && b == 0x4200_0000_0000_0000u64 ==> a & b == 0) && (a == 0x1000_0000_0000_0000u64 && b == 0x2400_0000_0000_0000u64 ==> a & b == 0) && (a == 0x1000_0000_0000_0000u64 && b == 0x8100_0000_0000_0000u64 ==> a & b == 0) && (a == 0x1000_0000_0000_0000u64 && b == 0x0800_0000_0000_0000u64 ==> a & b == 0) && (a == 0x0800_0000_0000_0000u64 && b == 0x0000_0000_0000_FF00u64 ==> a & b == 0) && (a == 0x0800_0000_0000_0000u64 && b == 0x0000_0000_0000_0042u64 ==> a & b == 0) && (a == 0x0800_0000_0000_0000u64 && b == 0x0000_0000_0000_0024u64 ==> a & b == 0) && (a == 0x0800_0000_0000_0000u64 && b == 0x0000_0000_0000_0081u64 ==> a & b == 0) && (a == 0x0800_0000_0000_0000u64 && b == 0x0000_0000_0000_0010u64 ==> a & b == 0) && (a == 0x0800_0000_0000_0000u64 && b == 0x0000_0000_0000_0008u64 ==> a & b == 0) && (a == 0x0800_0000_0000_0000u64 && b == 0x00FF_0000_0000_0000u64 ==> a & b == 0) && (a == 0x0800_0000_0000_0000u64 && b == 0x4200_0000_0000_0000u64 ==> a & b == 0) && (a == 0x0800_0000_0000_0000u64 && b == 0x2400_0000_0000_0000u64 ==> a & b == 0) && (a == 0x0800_0000_0000_0000u64 && b == 0x8100_0000_0000_0000u64 ==> a & b == 0) && (a == 0x0800_0000_0000_0000u64 && b == 0x1000_0000_0000_0000u64 ==> a & b == 0)) by (bit_vector);
    }
    assert(v.white == union_of(v, WHITE)) by {
        assert(0x0000_0000_0000_FFFFu64 == 0x0000_0000_0000_FF00u64 | 0x0000_0000_0000_0042u64 | 0x0000_0000_0000_0024u64 | 0x0000_0000_0000_0081u64 | 0x0000_0000_0000_0010u64 | 0x0000_0000_0000_0008u64) by (bit_vector);
    }
    assert(v.black == union_of(v, BLACK)) by {
        assert(0xFFFF_0000_0000_0000u64 == 0x00FF_0000_0000_0000u64 | 0x4200_0000_0000_0000u64 | 0x2400_0000_0000_0000u64 | 0x8100_0000_0000_0000u64 | 0x1000_0000_0000_0000u64 | 0x0800_0000_0000_0000u64) by (bit_vector);
    }
}

/// The board after playing each `(piece, color, move)` of `steps` in turn.
pub open spec fn play_all(v: BoardView, steps: Seq<(u8, u8, (u16, MoveType))>) -> BoardView
    decreases steps.len(),
{
    if steps.len() == 0 {
        v
    } else {
        play_all(move_piece_view(v, steps[0].0, steps[0].1, steps[0].2), steps.drop_first())
    }
}

/// Each step of `steps` fits the board it is played on (see [`move_fits`]).
pub open spec fn all_fit(v: BoardView, steps: Seq<(u8, u8, (u16, MoveType))>) -> bool
    decreases steps.len(),
{
    steps.len() == 0 || {
        &&& is_piece_type(steps[0].0)
        &&& is_color(steps[0].1)
        &&& move_fits(v, steps[0].0, steps[0].1, steps[0].2)
        &&& all_fit(move_piece_view(v, steps[0].0, steps[0].1, steps[0].2), steps.drop_first())
    }
}

/// A consistent board stays consistent over any sequence of fitting moves.
pub proof fn lemma_play_all_ok(v: BoardView, steps: Seq<(u8, u8, (u16, MoveType))>)
    requires
        board_ok(v),
        all_fit(v, steps),
    ensures
        board_ok(play_all(v, steps)),
    decreases steps.len(),
{
    if steps.len() > 0 {
        lemma_move_piece_keeps_board_ok(v, steps[0].0, steps[0].1, steps[0].2);
        lemma_play_all_ok(move_piece_view(v, steps[0].0, steps[0].1, steps[0].2), steps.drop_first());
    }
}

/// Every board reached from the starting position by fitting moves is
/// consistent: each color's occupancy is the union of its bitboards, and no
/// square is on two of them.
pub proof fn lemma_played_from_start_ok(steps: Seq<(u8, u8, (u16, MoveType))>)
    requires
        all_fit(crate::chessboard::starting_view(), steps),
    ensures
        board_ok(play_all(crate::chessboard::starting_view(), steps)),
{
    lemma_start_ok();
    lemma_play_all_ok(crate::chessboard::starting_view(), steps);
}

/// Over any sequence of moves the en passant file stays a file (1 to 8) or
/// 0, and the castling rights stay as they were: playing pieces never
/// changes them.
pub proof fn lemma_play_all_flags(v: BoardView, steps: Seq<(u8, u8, (u16, MoveType))>)
    requires
        v.en_passant <= 8,
    ensures
        play_all(v, steps).en_passant <= 8,
        play_all(v, steps).castling == v.castling,
    decreases steps.len(),
{
    if steps.len() > 0 {
        crate::chessboard::lemma_move_piece_en_passant(v, steps[0].0, steps[0].1, steps[0].2);
        lemma_play_all_flags(move_piece_view(v, steps[0].0, steps[0].1, steps[0].2), steps.drop_first());
    }
}

} // verus!
