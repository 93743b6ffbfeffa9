//! What the move generators compute, stated square by square: where a
//! knight jumps, which squares a slider reaches along a clear line, which
//! squares a side attacks and from where, when pawns step and castling is
//! offered, and which moves a request for a named piece answers.
use vstd::prelude::*;

verus! {

use crate::bits::{low_index, lemma_low_index_single};
use crate::chess_move::{MoveType, from_index_of, to_index_of, lemma_encode_decode};
use crate::chessboard::{BoardView, mask_of, move_piece_view};
use crate::constants::{
    is_color,
    opponent,
    KING,
    WHITE,
    BLACK,
    WHITE_KINGSIDE_CASTLE,
    WHITE_QUEENSIDE_CASTLE,
    BLACK_KINGSIDE_CASTLE,
    BLACK_QUEENSIDE_CASTLE,
};
use crate::movegenerator::{knight_targets, castling_moves, castle, castle_if, attacked};
use crate::board_history::movegen::{
    square_mask,
    over_squares,
    scan_targets,
    moves_to,
    pawn_pairs,
    pawn_pair,
    kind_of,
    slider_pieces,
    knight_moves,
    bishop_moves,
    rook_moves,
    queen_moves,
    pawn_moves,
    FILE_A,
    FILE_H,
    RANK_7,
};
use crate::board_history::board::{PositionView, board_of};
use crate::board_history::requests::{requested_moves_spec, moves_for_piece, leaves, leaves_fn};
use crate::constants::{PAWN, KNIGHT, BISHOP, ROOK, QUEEN, RANK_1, RANK_3, RANK_6, RANK_8, FILE_0, FILE_7};
use crate::bits::{expand, low_square, without_low, lemma_low_square, lemma_without_low_smaller};

/// Whether a knight can jump from square `s` to square `t` (both 0..64,
/// file `% 8`, rank `/ 8`): one file and two ranks apart, or two files and
/// one rank.
pub open spec fn knight_jump(s: int, t: int) -> bool {
    let df = s % 8 - t % 8;
    let dr = s / 8 - t / 8;
    ((df == 1 || df == -1) && (dr == 2 || dr == -2)) || ((df == 2 || df == -2) && (dr == 1 || dr == -1))
}

/// A knight on square `s` reaches square `t` exactly when `t` is a knight's
/// jump away and holds no piece of `own`.
pub proof fn lemma_knight_targets_exact(s: u64, t: u64, own: u64)
    requires
        s < 64,
        t < 64,
    ensures
        (knight_targets(1u64 << s, own) & (1u64 << t) != 0) == (knight_jump(s as int, t as int) && own & (1u64
            << t) == 0),
{
    let fs = s % 8;
    let rs = s / 8;
    let ft = t % 8;
    let rt = t / 8;
    assert(s < 64 && t < 64 ==> ((((((((((0u64 | (((1u64 << s) & !0x0101_0101_0101_0101u64) >> 17u64)) | (((1u64
        << s) & !0x8080_8080_8080_8080u64) >> 15u64)) | (((1u64 << s) & !(0x0202_0202_0202_0202u64
        | 0x0101_0101_0101_0101u64)) >> 10u64)) | (((1u64 << s) & !(0x8080_8080_8080_8080u64
        | 0x4040_4040_4040_4040u64)) >> 6u64)) | (((1u64 << s) & !0x0101_0101_0101_0101u64) << 15u64))
        | (((1u64 << s) & !0x8080_8080_8080_8080u64) << 17u64)) | (((1u64 << s) & !(0x0202_0202_0202_0202u64
        | 0x0101_0101_0101_0101u64)) << 6u64)) | (((1u64 << s) & !(0x8080_8080_8080_8080u64
        | 0x4040_4040_4040_4040u64)) << 10u64)) & !own) & (1u64 << t) != 0) == ((((t % 8 == ((s % 8) + 1)
        as u64 || s % 8 == ((t % 8) + 1) as u64) && (t / 8 == ((s / 8) + 2) as u64 || s / 8 == ((t / 8)
        + 2) as u64)) || ((t % 8 == ((s % 8) + 2) as u64 || s % 8 == ((t % 8) + 2) as u64) && (t / 8 == ((s
        / 8) + 1) as u64 || s / 8 == ((t / 8) + 1) as u64))) && own & (1u64 << t) == 0)) by (bit_vector);
    assert(fs < 8 && ft < 8 && rs < 8 && rt < 8);
}

/// Which squares a union of eight masks, without the squares of `own`,
/// meets; and one-square masks meet exactly when they are the same square.
proof fn lemma_union_meets(
    a0: u64,
    a1: u64,
    a2: u64,
    a3: u64,
    a4: u64,
    a5: u64,
    a6: u64,
    a7: u64,
    own: u64,
    b: u64,
    p: u64,
    t: u64,
)
    ensures
        t < 64 && b == 1u64 << t ==> (((((((((a0 | a1) | a2) | a3) | a4) | a5) | a6) | a7) & !own) & b != 0 <==> (a0 & b != 0 || a1 & b != 0
            || a2 & b != 0 || a3 & b != 0 || a4 & b != 0 || a5 & b != 0 || a6 & b != 0 || a7 & b != 0) && own
            & b == 0),
        0u64 & b == 0,
        p < 64 && t < 64 ==> ((1u64 << p) & (1u64 << t) != 0 <==> p == t),
        own & ((a0 | a1) | a2) == 0 ==> own & a0 == 0 && own & a1 == 0 && own & a2 == 0,
{
    assert((t < 64 && b == 1u64 << t ==> (((((((((a0 | a1) | a2) | a3) | a4) | a5) | a6) | a7) & !own) & b != 0 <==> (a0 & b != 0 || a1 & b
        != 0 || a2 & b != 0 || a3 & b != 0 || a4 & b != 0 || a5 & b != 0 || a6 & b != 0 || a7 & b != 0)
        && own & b == 0)) && 0u64 & b == 0 && (p
        < 64 && t < 64 ==> ((1u64 << p) & (1u64 << t) != 0 <==> p == t)) && (own & ((a0 | a1) | a2) == 0
        ==> own & a0 == 0 && own & a1 == 0 && own & a2 == 0)) by (bit_vector);
}

/// The mask of square (x, y) meets square `t` exactly when `t` is that
/// square.
proof fn lemma_square_hits(x: int, y: int, t: u64)
    requires
        0 <= x < 8,
        0 <= y < 8,
        t < 64,
    ensures
        square_mask(x, y) & (1u64 << t) != 0 <==> t as int == x + y * 8,
{
    lemma_union_meets(0, 0, 0, 0, 0, 0, 0, 0, 0, 0, (x + y * 8) as u64, t);
}

/// A knight of the history board on square `sq` reaches square `t` exactly
/// when `t` is a knight's jump away and holds no piece of `own`.
pub proof fn lemma_history_knight_targets_exact(sq: u64, t: u64, own: u64)
    requires
        sq < 64,
        t < 64,
    ensures
        (crate::board_history::movegen::knight_targets(sq, own) & (1u64 << t) != 0) == (knight_jump(
            sq as int,
            t as int,
        ) && own & (1u64 << t) == 0),
{
    let x = (sq % 8) as int;
    let y = (sq / 8) as int;
    let c0 = if x > 0 && y > 1 { square_mask(x - 1, y - 2) } else { 0u64 };
    let c1 = if x > 1 && y > 0 { square_mask(x - 2, y - 1) } else { 0u64 };
    let c2 = if x > 1 && y < 7 { square_mask(x - 2, y + 1) } else { 0u64 };
    let c3 = if x > 0 && y < 6 { square_mask(x - 1, y + 2) } else { 0u64 };
    let c4 = if x < 7 && y < 6 { square_mask(x + 1, y + 2) } else { 0u64 };
    let c5 = if x < 6 && y < 7 { square_mask(x + 2, y + 1) } else { 0u64 };
    let c6 = if x < 6 && y > 0 { square_mask(x + 2, y - 1) } else { 0u64 };
    let c7 = if x < 7 && y > 1 { square_mask(x + 1, y - 2) } else { 0u64 };
    let b = 1u64 << t;
    lemma_union_meets(c0, c1, c2, c3, c4, c5, c6, c7, own, b, 0, t);
    if x > 0 && y > 1 { lemma_square_hits(x - 1, y - 2, t); }
    if x > 1 && y > 0 { lemma_square_hits(x - 2, y - 1, t); }
    if x > 1 && y < 7 { lemma_square_hits(x - 2, y + 1, t); }
    if x > 0 && y < 6 { lemma_square_hits(x - 1, y + 2, t); }
    if x < 7 && y < 6 { lemma_square_hits(x + 1, y + 2, t); }
    if x < 6 && y < 7 { lemma_square_hits(x + 2, y + 1, t); }
    if x < 6 && y > 0 { lemma_square_hits(x + 2, y - 1, t); }
    if x < 7 && y > 1 { lemma_square_hits(x + 1, y - 2, t); }
    assert(t as int == (t % 8) as int + (t / 8) as int * 8);
}

/// Every square strictly between squares `a` and `b` is empty in
/// `occupied`.
pub open spec fn between_empty(occupied: u64, a: int, b: int) -> bool {
    forall|i: int| (a < i < b || b < i < a) ==> occupied & #[trigger] square_bit(i) == 0
}

/// The one-square mask of square `i`.
pub open spec fn square_bit(i: int) -> u64 {
    1u64 << (i as u64)
}

/// The castling right that castling with the rook on `rook_square` needs.
pub open spec fn castling_right_for(rook_square: int) -> u8 {
    if rook_square == 0 {
        WHITE_KINGSIDE_CASTLE
    } else if rook_square == 7 {
        WHITE_QUEENSIDE_CASTLE
    } else if rook_square == 56 {
        BLACK_KINGSIDE_CASTLE
    } else {
        BLACK_QUEENSIDE_CASTLE
    }
}

/// Castling is offered only when it is allowed: for every castling move
/// generated, the side holds the right for that rook, each square strictly
/// between the king's square and the rook's square is empty, and once
/// castled neither the king's nor the rook's new square is attacked by the
/// other side.
pub proof fn lemma_castling_conditions(v: BoardView, color: u8)
    ensures
        forall|k: int|
            0 <= k < castling_moves(v, color).len() ==> ((#[trigger] castling_moves(v, color)[k]).1 matches MoveType::Castling {
                rook_from,
                rook_to,
            } ==> between_empty(
                v.white | v.black,
                from_index_of(castling_moves(v, color)[k].0) as int,
                low_index(rook_from) as int,
            ) && v.castling & castling_right_for(low_index(rook_from) as int) != 0 && !attacked(
                move_piece_view(v, KING, color, castling_moves(v, color)[k]),
                1u64 << to_index_of(castling_moves(v, color)[k].0),
                opponent(color),
            ) && !attacked(move_piece_view(v, KING, color, castling_moves(v, color)[k]), rook_to, opponent(color))),
{
    let occ = v.white | v.black;
    crate::constants::lemma_board_constants();
    lemma_encode_decode(3, 1, KING, WHITE);
    lemma_encode_decode(3, 5, KING, WHITE);
    lemma_encode_decode(59, 57, KING, BLACK);
    lemma_encode_decode(59, 61, KING, BLACK);
    lemma_low_index_single(0);
    lemma_low_index_single(7);
    lemma_low_index_single(56);
    lemma_low_index_single(63);
    crate::bits::lemma_mask_identities((1u64 << 1u64) | (1u64 << 2u64), 0);
    crate::bits::lemma_mask_identities((1u64 << 57u64) | (1u64 << 58u64), 0);
    lemma_union_meets(1u64 << 1u64, 1u64 << 2u64, 0, 0, 0, 0, 0, 0, occ, 0, 0, 0);
    lemma_union_meets(1u64 << 4u64, 1u64 << 5u64, 1u64 << 6u64, 0, 0, 0, 0, 0, occ, 0, 0, 0);
    lemma_union_meets(1u64 << 57u64, 1u64 << 58u64, 0, 0, 0, 0, 0, 0, occ, 0, 0, 0);
    lemma_union_meets(1u64 << 60u64, 1u64 << 61u64, 1u64 << 62u64, 0, 0, 0, 0, 0, occ, 0, 0, 0);
    let rights = v.castling;
    let cm = castling_moves(v, color);
    let (allowed_k, mv_k, allowed_q, mv_q) = if color == WHITE {
        (
            rights & WHITE_KINGSIDE_CASTLE != 0 && occ & ((1u64 << 1u64) | (1u64 << 2u64)) == 0,
            castle(1u64 << 3u64, 1u64 << 1u64, WHITE, 1u64, 1u64 << 2u64),
            rights & WHITE_QUEENSIDE_CASTLE != 0 && occ & ((1u64 << 4u64) | (1u64 << 5u64) | (1u64
                << 6u64)) == 0,
            castle(1u64 << 3u64, 1u64 << 5u64, WHITE, 1u64 << 7u64, 1u64 << 4u64),
        )
    } else {
        (
            rights & BLACK_KINGSIDE_CASTLE != 0 && occ & ((1u64 << 57u64) | (1u64 << 58u64)) == 0,
            castle(1u64 << 59u64, 1u64 << 57u64, BLACK, 1u64 << 56u64, 1u64 << 58u64),
            rights & BLACK_QUEENSIDE_CASTLE != 0 && occ & ((1u64 << 60u64) | (1u64 << 61u64) | (1u64
                << 62u64)) == 0,
            castle(1u64 << 59u64, 1u64 << 61u64, BLACK, 1u64 << 63u64, 1u64 << 60u64),
        )
    };
    let c = if color == WHITE { WHITE } else { BLACK };
    let ks = if color == WHITE {
        castle_if(v, WHITE, allowed_k, mv_k, 1u64 << 2u64, 1u64 << 1u64)
    } else {
        castle_if(v, BLACK, allowed_k, mv_k, 1u64 << 58u64, 1u64 << 57u64)
    };
    let qs = if color == WHITE {
        castle_if(v, WHITE, allowed_q, mv_q, 1u64 << 4u64, 1u64 << 5u64)
    } else {
        castle_if(v, BLACK, allowed_q, mv_q, 1u64 << 60u64, 1u64 << 61u64)
    };
    assert(cm == ks + qs);
    assert forall|k: int| 0 <= k < cm.len() implies ((#[trigger] cm[k]).1 matches MoveType::Castling {
        rook_from,
        rook_to,
    } ==> between_empty(occ, from_index_of(cm[k].0) as int, low_index(rook_from) as int) && v.castling
        & castling_right_for(low_index(rook_from) as int) != 0 && !attacked(
        move_piece_view(v, KING, color, cm[k]),
        1u64 << to_index_of(cm[k].0),
        opponent(color),
    ) && !attacked(move_piece_view(v, KING, color, cm[k]), rook_to, opponent(color))) by {
        let m = if k < ks.len() { mv_k } else { mv_q };
        let allowed = if k < ks.len() { allowed_k } else { allowed_q };
        if k < ks.len() {
            assert(cm[k] == ks[k]);
        } else {
            assert(cm[k] == qs[k - ks.len()]);
        }
        assert(cm[k] == m && allowed);
        if let MoveType::Castling { rook_from, rook_to } = cm[k].1 {
            assert forall|i: int| (from_index_of(cm[k].0) < i < low_index(rook_from) || low_index(rook_from) < i
                < from_index_of(cm[k].0)) implies occ & #[trigger] square_bit(i) == 0 by {
                assert(i == 1 || i == 2 || i == 4 || i == 5 || i == 6 || i == 57 || i == 58 || i == 60 || i == 61
                    || i == 62);
                if color == WHITE {
                    if k < ks.len() {
                        assert(i == 1 || i == 2);
                    } else {
                        assert(i == 4 || i == 5 || i == 6);
                    }
                } else {
                    if k < ks.len() {
                        assert(i == 57 || i == 58);
                    } else {
                        assert(i == 60 || i == 61 || i == 62);
                    }
                }
                assert(square_bit(i) == 1u64 << (i as u64));
            }
        }
    }
}

/// When every move that `f` gives for a square of `pieces` satisfies `q`,
/// every move gathered over those squares does.
proof fn lemma_over_squares_all(
    pieces: u64,
    f: spec_fn(u64) -> Seq<(u64, u64)>,
    n: int,
    q: spec_fn((u64, u64)) -> bool,
)
    requires
        n <= 64,
        forall|sq: u64, k: int|
            sq < 64 && pieces & (1u64 << sq) != 0 && 0 <= k < f(sq).len() ==> q(#[trigger] f(sq)[k]),
    ensures
        forall|k: int| 0 <= k < over_squares(pieces, f, n).len() ==> q(#[trigger] over_squares(pieces, f, n)[k]),
    decreases n,
{
    if n > 0 {
        lemma_over_squares_all(pieces, f, n - 1, q);
        let head = over_squares(pieces, f, n - 1);
        let tail = if pieces & (1u64 << ((n - 1) as u64)) != 0 {
            f((n - 1) as u64)
        } else {
            Seq::<(u64, u64)>::empty()
        };
        let all = over_squares(pieces, f, n);
        assert(all == head + tail);
        assert forall|k: int| 0 <= k < all.len() implies q(#[trigger] all[k]) by {
            if k < head.len() {
                assert(all[k] == head[k]);
            } else {
                assert(all[k] == tail[k - head.len()]);
            }
        }
    }
}

/// Every move that a scan of targets gives leaves `from`.
proof fn lemma_scan_origin(from: u64, targets: u64, n: int)
    ensures
        forall|k: int| 0 <= k < scan_targets(from, targets, n).len() ==> (#[trigger] scan_targets(from, targets, n)[k]).0
            == from,
    decreases n,
{
    if n > 0 {
        lemma_scan_origin(from, targets, n - 1);
        let head = scan_targets(from, targets, n - 1);
        let all = scan_targets(from, targets, n);
        assert forall|k: int| 0 <= k < all.len() implies (#[trigger] all[k]).0 == from by {
            if k < head.len() {
                assert(all[k] == head[k]);
            }
        }
    }
}

/// Every move to the squares of `targets` leaves `from`.
proof fn lemma_moves_to_origin(from: u64, targets: u64)
    ensures
        forall|k: int| 0 <= k < moves_to(from, targets).len() ==> (#[trigger] moves_to(from, targets)[k]).0 == from,
{
    let f = |to: u64| seq![(from, to)];
    let q = |mv: (u64, u64)| mv.0 == from;
    assert forall|sq: u64, k: int| sq != 0 && 0 <= k < f(sq).len() implies q(#[trigger] f(sq)[k]) by {}
    crate::bits::lemma_expand_all(targets, f, q);
    assert forall|k: int| 0 <= k < moves_to(from, targets).len() implies (#[trigger] moves_to(from, targets)[k]).0
        == from by {
        assert(q(expand(targets, f)[k]));
    }
}

/// The bit facts behind the origins of pawn moves: a part of the rest of a
/// mask is a part of the mask, and a square of a white pawn mask comes from
/// (steps) or is reached from (captures) a white pawn.
proof fn lemma_pawn_origin_bits(sq: u64, m: u64, pawns: u64, occ: u64, opp: u64)
    ensures
        m != 0 && sq & (m & ((m - 1) as u64)) == sq ==> sq & m == sq,
        m != 0 && (m & ((m - 1) as u64)) & sq != 0 ==> m & sq != 0,
        sq != 0 && sq & ((pawns & !RANK_7) & !(occ >> 8u64)) == sq ==> pawns & sq != 0,
        sq != 0 && sq & (((pawns & !FILE_A) >> 9u64) & opp) == sq ==> pawns & (sq << 9u64) != 0,
        sq != 0 && sq & (((pawns & !FILE_H) >> 7u64) & opp) == sq ==> pawns & (sq << 7u64) != 0,
{
    assert((m != 0 && sq & (m & ((m - 1) as u64)) == sq ==> sq & m == sq) && (m != 0 && (m & ((m - 1)
        as u64)) & sq != 0 ==> m & sq != 0) && (sq != 0 && sq & ((pawns
        & !0xFF00_0000_0000_0000u64) & !(occ >> 8u64)) == sq ==> pawns & sq != 0) && (sq != 0 && sq & (((
        pawns & !0x0101_0101_0101_0101u64) >> 9u64) & opp) == sq ==> pawns & (sq << 9u64) != 0) && (sq != 0
        && sq & (((pawns & !0x8080_8080_8080_8080u64) >> 7u64) & opp) == sq ==> pawns & (sq << 7u64) != 0))
        by (bit_vector);
}

/// Every element of an expansion satisfies `p` when every element that `f`
/// gives for a non-empty part of the mask does.
proof fn lemma_expand_within<A>(m: u64, f: spec_fn(u64) -> Seq<A>, p: spec_fn(A) -> bool)
    requires
        forall|sq: u64, k: int| sq != 0 && sq & m == sq && 0 <= k < f(sq).len() ==> p(#[trigger] f(sq)[k]),
    ensures
        forall|k: int| 0 <= k < expand(m, f).len() ==> p(#[trigger] expand(m, f)[k]),
    decreases m,
{
    if m != 0 {
        lemma_without_low_smaller(m);
        lemma_low_square(m);
        assert forall|sq: u64, k: int| sq != 0 && sq & without_low(m) == sq && 0 <= k < f(sq).len() implies p(
            #[trigger] f(sq)[k],
        ) by {
            lemma_pawn_origin_bits(sq, m, 0, 0, 0);
        }
        lemma_expand_within(without_low(m), f, p);
        let head = f(low_square(m));
        let tail = expand(without_low(m), f);
        assert forall|k: int| 0 <= k < expand(m, f).len() implies p(#[trigger] expand(m, f)[k]) by {
            if k < head.len() {
                assert(expand(m, f)[k] == head[k]);
            } else {
                assert(expand(m, f)[k] == tail[k - head.len()]);
            }
        }
    }
}

/// Every knight move of the history board's generator leaves a square of
/// one of the side's knights.
pub proof fn lemma_knight_moves_start_on_knights(p: PositionView, color: i8)
    ensures
        forall|k: int|
            0 <= k < knight_moves(p, color).len() ==> kind_of(p, KNIGHT, color) & (#[trigger] knight_moves(
                p,
                color,
            )[k]).0 != 0,
{
    let pieces = kind_of(p, KNIGHT, color);
    let f = |sq: u64|
        scan_targets(1u64 << sq, crate::board_history::movegen::knight_targets(sq, crate::board_history::movegen::own_of(p, color)), 64);
    let q = |mv: (u64, u64)| pieces & mv.0 != 0;
    assert forall|sq: u64, k: int| sq < 64 && pieces & (1u64 << sq) != 0 && 0 <= k < f(sq).len() implies q(
        #[trigger] f(sq)[k],
    ) by {
        lemma_scan_origin(1u64 << sq, crate::board_history::movegen::knight_targets(sq, crate::board_history::movegen::own_of(p, color)), 64);
    }
    lemma_over_squares_all(pieces, f, 64, q);
    assert forall|k: int| 0 <= k < knight_moves(p, color).len() implies pieces & (#[trigger] knight_moves(
        p,
        color,
    )[k]).0 != 0 by {
        assert(q(over_squares(pieces, f, 64)[k]));
    }
}

/// Every bishop move of the history board's generator leaves a square of
/// the pieces it moves (the side's bishops, or the given queen mask).
pub proof fn lemma_bishop_moves_start_on_pieces(p: PositionView, color: i8, queen_mask: Option<u64>)
    ensures
        forall|k: int|
            0 <= k < bishop_moves(p, color, queen_mask).len() ==> slider_pieces(p, color, BISHOP, queen_mask) & (
            #[trigger] bishop_moves(p, color, queen_mask)[k]).0 != 0,
{
    let pieces = slider_pieces(p, color, BISHOP, queen_mask);
    let own = crate::board_history::movegen::own_of(p, color);
    let f = |sq: u64| moves_to(1u64 << sq, crate::board_history::movegen::bishop_targets(sq, own, p.white | p.black));
    let q = |mv: (u64, u64)| pieces & mv.0 != 0;
    assert forall|sq: u64, k: int| sq < 64 && pieces & (1u64 << sq) != 0 && 0 <= k < f(sq).len() implies q(
        #[trigger] f(sq)[k],
    ) by {
        lemma_moves_to_origin(1u64 << sq, crate::board_history::movegen::bishop_targets(sq, own, p.white | p.black));
    }
    lemma_over_squares_all(pieces, f, 64, q);
    assert forall|k: int| 0 <= k < bishop_moves(p, color, queen_mask).len() implies pieces & (
    #[trigger] bishop_moves(p, color, queen_mask)[k]).0 != 0 by {
        assert(q(over_squares(pieces, f, 64)[k]));
    }
}

/// Every rook move of the history board's generator leaves a square of the
/// pieces it moves (the side's rooks, or the given queen mask).
pub proof fn lemma_rook_moves_start_on_pieces(p: PositionView, color: i8, queen_mask: Option<u64>)
    ensures
        forall|k: int|
            0 <= k < rook_moves(p, color, queen_mask).len() ==> slider_pieces(p, color, ROOK, queen_mask) & (
            #[trigger] rook_moves(p, color, queen_mask)[k]).0 != 0,
{
    let pieces = slider_pieces(p, color, ROOK, queen_mask);
    let own = crate::board_history::movegen::own_of(p, color);
    let f = |sq: u64| moves_to(1u64 << sq, crate::board_history::movegen::rook_targets(sq, own, p.white | p.black));
    let q = |mv: (u64, u64)| pieces & mv.0 != 0;
    assert forall|sq: u64, k: int| sq < 64 && pieces & (1u64 << sq) != 0 && 0 <= k < f(sq).len() implies q(
        #[trigger] f(sq)[k],
    ) by {
        lemma_moves_to_origin(1u64 << sq, crate::board_history::movegen::rook_targets(sq, own, p.white | p.black));
    }
    lemma_over_squares_all(pieces, f, 64, q);
    assert forall|k: int| 0 <= k < rook_moves(p, color, queen_mask).len() implies pieces & (
    #[trigger] rook_moves(p, color, queen_mask)[k]).0 != 0 by {
        assert(q(over_squares(pieces, f, 64)[k]));
    }
}

/// Every queen move of the history board's generator leaves a square of
/// one of the side's queens.
pub proof fn lemma_queen_moves_start_on_queens(p: PositionView, color: i8)
    ensures
        forall|k: int|
            0 <= k < queen_moves(p, color).len() ==> board_of(p, QUEEN, color) & (#[trigger] queen_moves(
                p,
                color,
            )[k]).0 != 0,
{
    let qm = Some(board_of(p, QUEEN, color));
    lemma_bishop_moves_start_on_pieces(p, color, qm);
    lemma_rook_moves_start_on_pieces(p, color, qm);
    let b = bishop_moves(p, color, qm);
    let r = rook_moves(p, color, qm);
    assert forall|k: int| 0 <= k < queen_moves(p, color).len() implies board_of(p, QUEEN, color) & (
    #[trigger] queen_moves(p, color)[k]).0 != 0 by {
        if k < b.len() {
            assert(queen_moves(p, color)[k] == b[k]);
        } else {
            assert(queen_moves(p, color)[k] == r[k - b.len()]);
        }
    }
}

/// Every pawn pair of a part of `mask` satisfies `q` when each part does.
proof fn lemma_pawn_pairs_all(mask: u64, shift: u64, up: bool, bio: bool, q: spec_fn((u64, u64)) -> bool)
    requires
        forall|sq: u64| sq != 0 && sq & mask == sq ==> q(#[trigger] pawn_pair(sq, shift, up, bio)),
    ensures
        forall|k: int| 0 <= k < pawn_pairs(mask, shift, up, bio).len() ==> q(
            #[trigger] pawn_pairs(mask, shift, up, bio)[k],
        ),
{
    let f = |sq: u64| seq![pawn_pair(sq, shift, up, bio)];
    assert forall|sq: u64, k: int| sq != 0 && sq & mask == sq && 0 <= k < f(sq).len() implies q(
        #[trigger] f(sq)[k],
    ) by {
        assert(f(sq)[k] == pawn_pair(sq, shift, up, bio));
    }
    lemma_expand_within(mask, f, q);
    assert forall|k: int| 0 <= k < pawn_pairs(mask, shift, up, bio).len() implies q(
        #[trigger] pawn_pairs(mask, shift, up, bio)[k],
    ) by {
        assert(q(expand(mask, f)[k]));
    }
}

/// Every white pawn move of the history board's generator, step or
/// capture, leaves a square of a white pawn.
pub proof fn lemma_white_pawn_moves_start_on_pawns(p: PositionView)
    ensures
        forall|k: int|
            0 <= k < pawn_moves(p, crate::board_history::board::WHITE).len() ==> board_of(
                p,
                PAWN,
                crate::board_history::board::WHITE,
            ) & (#[trigger] pawn_moves(p, crate::board_history::board::WHITE)[k]).0 != 0,
{
    let w = crate::board_history::board::WHITE;
    let pawns = board_of(p, PAWN, w);
    let q = |mv: (u64, u64)| pawns & mv.0 != 0;
    let steps = crate::board_history::movegen::white_steps(p);
    let left = ((pawns & !FILE_A) >> 9u64) & p.black;
    let right = ((pawns & !FILE_H) >> 7u64) & p.black;
    assert forall|sq: u64| sq != 0 && sq & steps == sq implies q(#[trigger] pawn_pair(sq, 8, true, true)) by {
        lemma_pawn_origin_bits(sq, 1, pawns, p.white | p.black, p.black);
    }
    assert forall|sq: u64| sq != 0 && sq & left == sq implies q(#[trigger] pawn_pair(sq, 9, true, false)) by {
        lemma_pawn_origin_bits(sq, 1, pawns, p.white | p.black, p.black);
    }
    assert forall|sq: u64| sq != 0 && sq & right == sq implies q(#[trigger] pawn_pair(sq, 7, true, false)) by {
        lemma_pawn_origin_bits(sq, 1, pawns, p.white | p.black, p.black);
    }
    lemma_pawn_pairs_all(steps, 8, true, true, q);
    lemma_pawn_pairs_all(left, 9, true, false, q);
    lemma_pawn_pairs_all(right, 7, true, false, q);
    let a = pawn_pairs(steps, 8, true, true);
    let b = pawn_pairs(left, 9, true, false);
    let c = pawn_pairs(right, 7, true, false);
    let all = pawn_moves(p, w);
    assert(all == a + b + c);
    assert forall|k: int| 0 <= k < all.len() implies pawns & (#[trigger] all[k]).0 != 0 by {
        if k < a.len() {
            assert(all[k] == a[k]);
            assert(q(a[k]));
        } else if k < a.len() + b.len() {
            assert(all[k] == b[k - a.len()]);
            assert(q(b[k - a.len()]));
        } else {
            assert(all[k] == c[k - a.len() - b.len()]);
            assert(q(c[k - a.len() - b.len()]));
        }
    }
}

/// The piece kind and side that a request name `<side>_<kind>` stands for.
pub open spec fn named_piece(name: Seq<char>) -> Option<(u8, i8)> {
    if name == "white_pawn"@ {
        Some((PAWN, crate::board_history::board::WHITE))
    } else if name == "white_knight"@ {
        Some((KNIGHT, crate::board_history::board::WHITE))
    } else if name == "white_bishop"@ {
        Some((BISHOP, crate::board_history::board::WHITE))
    } else if name == "white_rook"@ {
        Some((ROOK, crate::board_history::board::WHITE))
    } else if name == "white_queen"@ {
        Some((QUEEN, crate::board_history::board::WHITE))
    } else if name == "white_king"@ {
        Some((KING, crate::board_history::board::WHITE))
    } else if name == "black_pawn"@ {
        Some((PAWN, crate::board_history::board::BLACK))
    } else if name == "black_knight"@ {
        Some((KNIGHT, crate::board_history::board::BLACK))
    } else if name == "black_bishop"@ {
        Some((BISHOP, crate::board_history::board::BLACK))
    } else if name == "black_rook"@ {
        Some((ROOK, crate::board_history::board::BLACK))
    } else if name == "black_queen"@ {
        Some((QUEEN, crate::board_history::board::BLACK))
    } else if name == "black_king"@ {
        Some((KING, crate::board_history::board::BLACK))
    } else {
        None
    }
}

/// A request for the moves of a named piece answers only moves that leave
/// the clicked square (x, y) and start on a piece of the named kind and
/// side. Black pawn steps are left out: that generator records them from
/// the square in front of the pawn.
pub proof fn lemma_requested_moves_start_on_named_piece(p: PositionView, x: u8, y: u8, name: Seq<char>)
    requires
        named_piece(name) is Some,
        name != "black_pawn"@,
    ensures
        forall|k: int|
            0 <= k < requested_moves_spec(p, x, y, name).len() ==> leaves(
                #[trigger] requested_moves_spec(p, x, y, name)[k],
                x,
                y,
            ) && board_of(p, named_piece(name).unwrap().0, named_piece(name).unwrap().1)
                & requested_moves_spec(p, x, y, name)[k].0 != 0,
{
    let kind = named_piece(name).unwrap().0;
    let color = named_piece(name).unwrap().1;
    let pieces = board_of(p, kind, color);
    let all = moves_for_piece(p, name).unwrap();
    assert(moves_for_piece(p, name) is Some);
    assert(color == crate::board_history::board::WHITE || color == crate::board_history::board::BLACK);
    lemma_knight_moves_start_on_knights(p, color);
    lemma_bishop_moves_start_on_pieces(p, color, None);
    lemma_rook_moves_start_on_pieces(p, color, None);
    lemma_queen_moves_start_on_queens(p, color);
    lemma_white_pawn_moves_start_on_pawns(p);
    assert forall|j: int| 0 <= j < all.len() implies pieces & (#[trigger] all[j]).0 != 0 by {
        if kind == KNIGHT {
            assert(all[j] == knight_moves(p, color)[j]);
        } else if kind == BISHOP {
            assert(all[j] == bishop_moves(p, color, None)[j]);
        } else if kind == ROOK {
            assert(all[j] == rook_moves(p, color, None)[j]);
        } else if kind == QUEEN {
            assert(all[j] == queen_moves(p, color)[j]);
        } else if kind == PAWN {
            assert(all[j] == pawn_moves(p, color)[j]);
        }
    }
    let r = requested_moves_spec(p, x, y, name);
    assert(r == all.filter(leaves_fn(x, y)));
    assert forall|k: int| 0 <= k < r.len() implies leaves(#[trigger] r[k], x, y) && pieces & r[k].0 != 0 by {
        all.lemma_filter_pred(leaves_fn(x, y), k);
        assert(r.contains(r[k]));
        all.lemma_filter_contains_rev(leaves_fn(x, y), r[k]);
        let j = choose|j: int| 0 <= j < all.len() && all[j] == r[k];
        assert(pieces & all[j].0 != 0);
    }
}

/// The square that a sweep from `from` reaches at step `i`.
spec fn ray_dest(from: u64, step: u64, left: bool, i: u64) -> u64 {
    if left {
        from << ((step * i) as u64)
    } else {
        from >> ((step * i) as u64)
    }
}

/// The bit facts behind a sweep along a line: what a union, a mask without
/// the own squares, and a shifted one-square mask hold, and which edges a
/// square lies on.
proof fn lemma_line_bits(acc: u64, x: u64, own: u64, b: u64, r: u64, a: u64, s: u64, k: u64)
    ensures
        acc & b != 0 ==> (acc | x) & b != 0,
        b != 0 && own & b == 0 ==> (acc | (b & !own)) & b != 0,
        own & b == 0 && acc & b != 0 ==> (acc & !own) & b != 0,
        x & r == 0 && x & a == 0 ==> x & (r | a) == 0,
        x & a == a & x,
        acc | x == x | acc,
        (acc | x) & b != 0 ==> acc & b != 0 || x & b != 0,
        x & (r | a) == 0 ==> x & r == 0 && x & a == 0,
        k < 64 && (x & !own) & (1u64 << k) != 0 ==> x & (1u64 << k) != 0 && own & (1u64 << k) == 0,
        s < 64 && k < 64 && s + k >= 64 ==> (1u64 << s) << k == 0,
        s < 64 && k < 64 && k > s ==> (1u64 << s) >> k == 0,
        s < 64 && k < 64 && s + k < 64 ==> (1u64 << s) << k == 1u64 << ((s + k) as u64),
        k <= s && s < 64 ==> (1u64 << s) >> k == 1u64 << ((s - k) as u64),
        s < 64 ==> (1u64 << s) != 0,
        s < 64 && k < 64 && s != k && acc & (1u64 << k) != 0 ==> (acc & !(1u64 << s)) & (1u64 << k) != 0,
        acc & (1u64 << k) != 0 ==> acc != 0,
        s < 64 ==> ((1u64 << s) & 0xFF00_0000_0000_0000u64 == 0 <==> s < 56),
        s < 64 ==> ((1u64 << s) & 0x0000_0000_0000_00FFu64 == 0 <==> s >= 8),
        s < 64 ==> ((1u64 << s) & 0x8080_8080_8080_8080u64 == 0 <==> s % 8 != 7),
        s < 64 ==> ((1u64 << s) & 0x0101_0101_0101_0101u64 == 0 <==> s % 8 != 0),
{
    assert((acc & b != 0 ==> (acc | x) & b != 0) && (b != 0 && own & b == 0 ==> (acc | (b & !own)) & b
        != 0) && (own & b == 0 && acc & b != 0 ==> (acc & !own) & b != 0) && (x & r == 0 && x & a == 0
        ==> x & (r | a) == 0) && x & a == a & x && acc | x == x | acc && ((acc | x) & b != 0 ==> acc & b
        != 0 || x & b != 0) && (x & (r | a) == 0 ==> x & r == 0 && x & a == 0)) by (bit_vector);
    assert((s < 64 && k < 64 && s + k < 64 ==> (1u64 << s) << k == 1u64 << ((s + k) as u64)) && (k <= s
        && s < 64 ==> (1u64 << s) >> k == 1u64 << ((s - k) as u64)) && (s < 64 && k < 64 && s + k >= 64 ==> (
        1u64 << s) << k == 0) && (s < 64 && k < 64 && k > s ==> (1u64 << s) >> k == 0) && (k < 64 && (x & !own) & (1u64 << k)
        != 0 ==> x & (1u64 << k) != 0 && own & (1u64 << k) == 0) && (s < 64 ==> (1u64
        << s) != 0) && (s < 64 && k < 64 && s != k
        && acc & (1u64 << k) != 0 ==> (acc & !(1u64 << s)) & (1u64 << k) != 0) && (acc & (1u64 << k) != 0 ==>
        acc != 0) && (s
        < 64 ==> ((1u64 << s) & 0xFF00_0000_0000_0000u64 == 0 <==> s < 56)) && (s < 64 ==> ((1u64 << s)
        & 0x0000_0000_0000_00FFu64 == 0 <==> s >= 8)) && (s < 64 ==> ((1u64 << s) & 0x8080_8080_8080_8080u64
        == 0 <==> s % 8 != 7)) && (s < 64 ==> ((1u64 << s) & 0x0101_0101_0101_0101u64 == 0 <==> s % 8
        != 0))) by (bit_vector);
}

/// A sweep keeps every square it started with.
proof fn lemma_ray_keeps(acc: u64, from: u64, step: u64, left: bool, stop: u64, own: u64, i: u64, b: u64)
    requires
        acc & b != 0,
    ensures
        crate::movegenerator::ray_fill(acc, from, step, left, stop, own, i) & b != 0,
    decreases 8 - i,
{
    if i < 8 {
        let d = ray_dest(from, step, left, i);
        lemma_line_bits(acc, d & !own, own, b, 0, 0, 0, 0);
        if d & stop == 0 {
            lemma_ray_keeps(acc | (d & !own), from, step, left, stop, own, (i + 1) as u64, b);
        }
    }
}

/// A sweep reaches the square `b` of step `j` when it holds no own piece
/// and no square of an earlier step stops the sweep.
proof fn lemma_ray_reaches(
    acc: u64,
    from: u64,
    step: u64,
    left: bool,
    stop: u64,
    own: u64,
    i: u64,
    j: u64,
    b: u64,
)
    requires
        1 <= i <= j < 8,
        b != 0,
        own & b == 0,
        ray_dest(from, step, left, j) == b,
        forall|k: u64| i <= k < j ==> #[trigger] ray_dest(from, step, left, k) & stop == 0,
    ensures
        crate::movegenerator::ray_fill(acc, from, step, left, stop, own, i) & b != 0,
    decreases j - i,
{
    let d = ray_dest(from, step, left, i);
    let acc2 = acc | (d & !own);
    if i == j {
        lemma_line_bits(acc, 0, own, b, 0, 0, 0, 0);
        assert(acc2 & b != 0);
        if d & stop == 0 {
            lemma_ray_keeps(acc2, from, step, left, stop, own, (i + 1) as u64, b);
        }
    } else {
        assert(d & stop == 0);
        lemma_ray_reaches(acc2, from, step, left, stop, own, (i + 1) as u64, j, b);
    }
}

/// The square `i` steps of `step` from square `s`, upwards (`left`) or
/// downwards in index.
spec fn line_sq(s: u64, step: u64, left: bool, i: int) -> int {
    if left {
        s + step * i
    } else {
        s - step * i
    }
}

/// A sweep from square `s` that stops on the squares of `e` and `all`
/// reaches the square `n` steps away when no square before it is in `e`
/// or `all`, and no own piece stands on it.
proof fn lemma_line_ray(acc: u64, s: u64, step: u64, left: bool, e: u64, all: u64, own: u64, n: u64)
    requires
        s < 64,
        1 <= n < 8,
        1 <= step <= 9,
        left ==> s + step * n < 64,
        !left ==> step * n <= s,
        forall|i: int|
            1 <= i < n ==> (#[trigger] square_bit(line_sq(s, step, left, i))) & e == 0 && all & square_bit(
                line_sq(s, step, left, i),
            ) == 0,
        own & square_bit(line_sq(s, step, left, n as int)) == 0,
    ensures
        crate::movegenerator::ray_fill(acc, 1u64 << s, step, left, e | all, own, 1) & square_bit(
            line_sq(s, step, left, n as int),
        ) != 0,
{
    let from = 1u64 << s;
    assert forall|k: u64| 1 <= k <= n implies #[trigger] ray_dest(from, step, left, k) == square_bit(
        line_sq(s, step, left, k as int),
    ) by {
        assert(step * k <= step * n) by (nonlinear_arith)
            requires
                k <= n,
        ;
        lemma_line_bits(0, 0, 0, 0, 0, 0, s, (step * k) as u64);
    }
    assert forall|k: u64| 1 <= k < n implies #[trigger] ray_dest(from, step, left, k) & (e | all) == 0 by {
        let x = square_bit(line_sq(s, step, left, k as int));
        assert(x & e == 0 && all & x == 0);
        lemma_line_bits(0, x, 0, 0, e, all, 0, 0);
    }
    let b = square_bit(line_sq(s, step, left, n as int));
    assert(0 <= line_sq(s, step, left, n as int) < 64);
    lemma_line_bits(0, 0, 0, 0, 0, 0, line_sq(s, step, left, n as int) as u64, 0);
    assert(ray_dest(from, step, left, n) == b);
    lemma_ray_reaches(acc, from, step, left, e | all, own, 1, n, b);
}

/// -1, 0 or 1 by the sign of `x`.
pub open spec fn sign(x: int) -> int {
    if x > 0 {
        1
    } else if x < 0 {
        -1
    } else {
        0
    }
}

/// The distance between two files or two ranks.
pub open spec fn gap(a: int, b: int) -> int {
    if a < b {
        b - a
    } else {
        a - b
    }
}

/// The index step from square `s` towards square `t`: one file and/or one
/// rank in their direction.
pub open spec fn line_step(s: int, t: int) -> int {
    sign(t % 8 - s % 8) + 8 * sign(t / 8 - s / 8)
}

/// How many such steps lead from `s` to `t` along a line: the larger of the
/// file and rank distances.
pub open spec fn line_len(s: int, t: int) -> int {
    if gap(s % 8, t % 8) < gap(s / 8, t / 8) {
        gap(s / 8, t / 8)
    } else {
        gap(s % 8, t % 8)
    }
}

/// Two different squares on one file or one rank.
pub open spec fn straight_line(s: int, t: int) -> bool {
    s != t && (s % 8 == t % 8 || s / 8 == t / 8)
}

/// Two different squares on one diagonal.
pub open spec fn diagonal_line(s: int, t: int) -> bool {
    s != t && gap(s % 8, t % 8) == gap(s / 8, t / 8)
}

/// Every square strictly between `s` and `t` on the line that joins them
/// is empty in `occupied`.
pub open spec fn line_clear(occupied: u64, s: int, t: int) -> bool {
    forall|i: int| 0 < i < line_len(s, t) ==> occupied & #[trigger] square_bit(s + line_step(s, t) * i) == 0
}

/// A sweep along the line from `s` to `t` reaches `t` when the line is
/// clear, no own piece stands on `t`, and no square before `t` is in `e`.
proof fn lemma_clear_dir(acc: u64, s: u64, t: u64, step: u64, left: bool, e: u64, all: u64, own: u64, n: u64)
    requires
        s < 64,
        t < 64,
        1 <= n < 8,
        1 <= step <= 9,
        t == line_sq(s, step, left, n as int),
        line_clear(all, s as int, t as int),
        line_len(s as int, t as int) == n,
        line_step(s as int, t as int) == (if left { step as int } else { -step }),
        forall|i: int| 1 <= i < n ==> (#[trigger] square_bit(line_sq(s, step, left, i))) & e == 0,
        own & square_bit(t as int) == 0,
    ensures
        crate::movegenerator::ray_fill(acc, 1u64 << s, step, left, e | all, own, 1) & square_bit(t as int) != 0,
{
    assert forall|i: int| 1 <= i < n implies (#[trigger] square_bit(line_sq(s, step, left, i))) & e == 0 && all
        & square_bit(line_sq(s, step, left, i)) == 0 by {
        assert(all & square_bit(s + line_step(s as int, t as int) * i) == 0);
        let ls = line_step(s as int, t as int);
        assert(line_sq(s, step, left, i) == s + ls * i) by (nonlinear_arith)
            requires
                ls == (if left { step as int } else { -step }),
                line_sq(s, step, left, i) == (if left { s + step * i } else { s - step * i }),
        ;
    }
    lemma_line_ray(acc, s, step, left, e, all, own, n);
}

/// A rook on square `s` reaches square `t` on its file or rank when the
/// squares between are empty and no own piece stands on `t`.
proof fn lemma_rook_targets_reach(s: u64, t: u64, own: u64, all: u64)
    requires
        s < 64,
        t < 64,
        straight_line(s as int, t as int),
        line_clear(all, s as int, t as int),
        own & square_bit(t as int) == 0,
    ensures
        crate::movegenerator::rook_targets(1u64 << s, own, all) & square_bit(t as int) != 0,
{
    let from = 1u64 << s;
    let b = square_bit(t as int);
    let fs = (s % 8) as int;
    let rs = (s / 8) as int;
    let ft = (t % 8) as int;
    let rt = (t / 8) as int;
    let m1 = if from & RANK_8 == 0 {
        crate::movegenerator::ray_fill(0, from, 8, true, RANK_8 | all, own, 1)
    } else {
        0
    };
    let m2 = if from & RANK_1 == 0 {
        crate::movegenerator::ray_fill(m1, from, 8, false, RANK_1 | all, own, 1)
    } else {
        m1
    };
    let m3 = if from & FILE_7 == 0 {
        crate::movegenerator::ray_fill(m2, from, 1, true, FILE_7 | all, own, 1)
    } else {
        m2
    };
    let m4 = if from & FILE_0 == 0 {
        crate::movegenerator::ray_fill(m3, from, 1, false, FILE_0 | all, own, 1)
    } else {
        m3
    };
    assert(crate::movegenerator::rook_targets(from, own, all) == m4 & !own);
    lemma_line_bits(0, 0, 0, 0, 0, 0, s, 0);
    if fs == ft && rt > rs {
        let n = (rt - rs) as u64;
        assert forall|i: int| 1 <= i < n implies (#[trigger] square_bit(line_sq(s, 8, true, i))) & RANK_8 == 0 by {
            lemma_line_bits(0, 0, 0, 0, 0, 0, line_sq(s, 8, true, i) as u64, 0);
        }
        lemma_clear_dir(0, s, t, 8, true, RANK_8, all, own, n);
    }
    if m1 & b != 0 && from & RANK_1 == 0 {
        lemma_ray_keeps(m1, from, 8, false, RANK_1 | all, own, 1, b);
    }
    if fs == ft && rt < rs {
        let n = (rs - rt) as u64;
        assert forall|i: int| 1 <= i < n implies (#[trigger] square_bit(line_sq(s, 8, false, i))) & RANK_1 == 0 by {
            lemma_line_bits(0, 0, 0, 0, 0, 0, line_sq(s, 8, false, i) as u64, 0);
        }
        lemma_clear_dir(m1, s, t, 8, false, RANK_1, all, own, n);
    }
    if m2 & b != 0 && from & FILE_7 == 0 {
        lemma_ray_keeps(m2, from, 1, true, FILE_7 | all, own, 1, b);
    }
    if rs == rt && ft > fs {
        let n = (ft - fs) as u64;
        assert forall|i: int| 1 <= i < n implies (#[trigger] square_bit(line_sq(s, 1, true, i))) & FILE_7 == 0 by {
            assert((s + i) / 8 == rs);
            lemma_line_bits(0, 0, 0, 0, 0, 0, line_sq(s, 1, true, i) as u64, 0);
        }
        lemma_clear_dir(m2, s, t, 1, true, FILE_7, all, own, n);
    }
    if m3 & b != 0 && from & FILE_0 == 0 {
        lemma_ray_keeps(m3, from, 1, false, FILE_0 | all, own, 1, b);
    }
    if rs == rt && ft < fs {
        let n = (fs - ft) as u64;
        assert forall|i: int| 1 <= i < n implies (#[trigger] square_bit(line_sq(s, 1, false, i))) & FILE_0 == 0 by {
            assert((s - i) / 8 == rs);
            lemma_line_bits(0, 0, 0, 0, 0, 0, line_sq(s, 1, false, i) as u64, 0);
        }
        lemma_clear_dir(m3, s, t, 1, false, FILE_0, all, own, n);
    }
    assert(m4 & b != 0);
    lemma_line_bits(m4, 0, own, b, 0, 0, 0, 0);
}

/// A bishop on square `s` reaches square `t` on its diagonal when the
/// squares between are empty and no own piece stands on `t`.
proof fn lemma_bishop_targets_reach(s: u64, t: u64, own: u64, all: u64)
    requires
        s < 64,
        t < 64,
        diagonal_line(s as int, t as int),
        line_clear(all, s as int, t as int),
        own & square_bit(t as int) == 0,
    ensures
        crate::movegenerator::bishop_targets(1u64 << s, own, all) & square_bit(t as int) != 0,
{
    let from = 1u64 << s;
    let b = square_bit(t as int);
    let fs = (s % 8) as int;
    let rs = (s / 8) as int;
    let ft = (t % 8) as int;
    let rt = (t / 8) as int;
    let m1 = if from & (RANK_8 | FILE_7) == 0 {
        crate::movegenerator::ray_fill(0, from, 9, true, (RANK_8 | FILE_7) | all, own, 1)
    } else {
        0
    };
    let m2 = if from & (RANK_1 | FILE_7) == 0 {
        crate::movegenerator::ray_fill(m1, from, 7, false, (RANK_1 | FILE_7) | all, own, 1)
    } else {
        m1
    };
    let m3 = if from & (RANK_8 | FILE_0) == 0 {
        crate::movegenerator::ray_fill(m2, from, 7, true, (FILE_0 | RANK_8) | all, own, 1)
    } else {
        m2
    };
    let m4 = if from & (RANK_1 | FILE_0) == 0 {
        crate::movegenerator::ray_fill(m3, from, 9, false, (FILE_0 | RANK_1) | all, own, 1)
    } else {
        m3
    };
    assert(crate::movegenerator::bishop_targets(from, own, all) == m4 & !own);
    lemma_line_bits(0, from, 0, 0, RANK_8, FILE_7, s, 0);
    lemma_line_bits(0, from, 0, 0, RANK_1, FILE_7, s, 0);
    lemma_line_bits(0, from, 0, 0, FILE_0, RANK_8, s, 0);
    lemma_line_bits(0, from, 0, 0, RANK_1, FILE_0, s, 0);
    lemma_line_bits(0, from, 0, 0, RANK_8, FILE_0, s, 0);
    lemma_line_bits(0, from, 0, 0, FILE_0, RANK_1, s, 0);
    if ft > fs && rt > rs {
        let n = (ft - fs) as u64;
        assert forall|i: int| 1 <= i < n implies (#[trigger] square_bit(line_sq(s, 9, true, i))) & (RANK_8
            | FILE_7) == 0 by {
            assert(s + 9 * i == 8 * (rs + i) + (fs + i));
            assert((s + 9 * i) / 8 == rs + i && (s + 9 * i) % 8 == fs + i);
            lemma_line_bits(0, square_bit(line_sq(s, 9, true, i)), 0, 0, RANK_8, FILE_7, line_sq(s, 9, true, i) as u64, 0);
        }
        lemma_clear_dir(0, s, t, 9, true, RANK_8 | FILE_7, all, own, n);
    }
    if m1 & b != 0 && from & (RANK_1 | FILE_7) == 0 {
        lemma_ray_keeps(m1, from, 7, false, (RANK_1 | FILE_7) | all, own, 1, b);
    }
    if ft > fs && rt < rs {
        let n = (ft - fs) as u64;
        assert forall|i: int| 1 <= i < n implies (#[trigger] square_bit(line_sq(s, 7, false, i))) & (RANK_1
            | FILE_7) == 0 by {
            assert(s - 7 * i == 8 * (rs - i) + (fs + i));
            assert((s - 7 * i) / 8 == rs - i && (s - 7 * i) % 8 == fs + i);
            lemma_line_bits(0, square_bit(line_sq(s, 7, false, i)), 0, 0, RANK_1, FILE_7, line_sq(s, 7, false, i) as u64, 0);
        }
        lemma_clear_dir(m1, s, t, 7, false, RANK_1 | FILE_7, all, own, n);
    }
    if m2 & b != 0 && from & (RANK_8 | FILE_0) == 0 {
        lemma_ray_keeps(m2, from, 7, true, (FILE_0 | RANK_8) | all, own, 1, b);
    }
    if ft < fs && rt > rs {
        let n = (fs - ft) as u64;
        assert forall|i: int| 1 <= i < n implies (#[trigger] square_bit(line_sq(s, 7, true, i))) & (FILE_0
            | RANK_8) == 0 by {
            assert(s + 7 * i == 8 * (rs + i) + (fs - i));
            assert((s + 7 * i) / 8 == rs + i && (s + 7 * i) % 8 == fs - i);
            lemma_line_bits(0, square_bit(line_sq(s, 7, true, i)), 0, 0, FILE_0, RANK_8, line_sq(s, 7, true, i) as u64, 0);
        }
        lemma_clear_dir(m2, s, t, 7, true, FILE_0 | RANK_8, all, own, n);
    }
    if m3 & b != 0 && from & (RANK_1 | FILE_0) == 0 {
        lemma_ray_keeps(m3, from, 9, false, (FILE_0 | RANK_1) | all, own, 1, b);
    }
    if ft < fs && rt < rs {
        let n = (fs - ft) as u64;
        assert forall|i: int| 1 <= i < n implies (#[trigger] square_bit(line_sq(s, 9, false, i))) & (FILE_0
            | RANK_1) == 0 by {
            assert(s - 9 * i == 8 * (rs - i) + (fs - i));
            assert((s - 9 * i) / 8 == rs - i && (s - 9 * i) % 8 == fs - i);
            lemma_line_bits(0, square_bit(line_sq(s, 9, false, i)), 0, 0, FILE_0, RANK_1, line_sq(s, 9, false, i) as u64, 0);
        }
        lemma_clear_dir(m3, s, t, 9, false, FILE_0 | RANK_1, all, own, n);
    }
    assert(m4 & b != 0);
    lemma_line_bits(m4, 0, own, b, 0, 0, 0, 0);
}

/// What `f` gives for a square of `m` appears in the expansion of `m`.
proof fn lemma_expand_has<A>(m: u64, f: spec_fn(u64) -> Seq<A>, t: u64, j: int)
    requires
        t < 64,
        m & (1u64 << t) != 0,
        0 <= j < f(1u64 << t).len(),
    ensures
        exists|k: int| 0 <= k < expand(m, f).len() && expand(m, f)[k] == f(1u64 << t)[j],
    decreases m,
{
    lemma_line_bits(m, 0, 0, 0, 0, 0, 0, t);
    crate::bits::lemma_low_index(m);
    let l = crate::bits::low_index(m) as u64;
    let head = f(low_square(m));
    let tail = expand(without_low(m), f);
    assert(expand(m, f) == head + tail);
    if l == t {
        assert(low_square(m) == 1u64 << t);
        assert(expand(m, f)[j] == f(1u64 << t)[j]);
    } else {
        crate::bits::lemma_clear_low(m);
        lemma_line_bits(m, 0, 0, 0, 0, 0, l, t);
        assert(low_square(m) == 1u64 << l);
        assert(without_low(m) & (1u64 << t) != 0);
        lemma_without_low_smaller(m);
        lemma_expand_has(without_low(m), f, t, j);
        let k = choose|k: int| 0 <= k < tail.len() && tail[k] == f(1u64 << t)[j];
        assert(expand(m, f)[head.len() + k] == tail[k]);
    }
}

/// A slider of `sliders` on square `s` whose targets hold square `t` gives
/// the move from `s` to `t`.
proof fn lemma_target_move_in(
    sliders: u64,
    g: spec_fn(u64) -> Seq<(u16, MoveType)>,
    s: u64,
    targets: u64,
    t: u64,
    piece: u8,
    c: u8,
)
    requires
        s < 64,
        t < 64,
        sliders & (1u64 << s) != 0,
        g(1u64 << s) == crate::movegenerator::target_moves(1u64 << s, targets, piece, c),
        targets & square_bit(t as int) != 0,
    ensures
        exists|k: int|
            0 <= k < expand(sliders, g).len() && expand(sliders, g)[k] == crate::movegenerator::normal(
                1u64 << s,
                1u64 << t,
                piece,
                c,
            ),
{
    let from = 1u64 << s;
    let f = |to: u64| seq![crate::movegenerator::normal(from, to, piece, c)];
    assert(crate::movegenerator::target_moves(from, targets, piece, c) == expand(targets, f));
    lemma_expand_has(targets, f, t, 0);
    let k = choose|k: int| 0 <= k < expand(targets, f).len() && expand(targets, f)[k] == f(1u64 << t)[0];
    lemma_expand_has(sliders, g, s, k);
}

/// The slider moves that count as attacks: bishop moves, rook moves, and
/// the queens' diagonal and straight moves.
spec fn slider_part(v: BoardView, color: u8, sel: int) -> Seq<(u16, MoveType)> {
    if sel == 0 {
        crate::movegenerator::bishop_moves_spec(v, color, None)
    } else if sel == 1 {
        crate::movegenerator::rook_moves_spec(v, color, None)
    } else if sel == 2 {
        crate::movegenerator::bishop_moves_spec(v, color, Some(mask_of(v, QUEEN, color)))
    } else {
        crate::movegenerator::rook_moves_spec(v, color, Some(mask_of(v, QUEEN, color)))
    }
}

/// A slider move that ends on `square` is an attack on it.
proof fn lemma_hit_in_attacks(v: BoardView, color: u8, sel: int, k: int, square: u64)
    requires
        0 <= sel < 4,
        0 <= k < slider_part(v, color, sel).len(),
        crate::movegenerator::hits(slider_part(v, color, sel)[k], square),
    ensures
        crate::movegenerator::attacked(v, square, color),
{
    let pa = crate::movegenerator::pawn_moves_spec(v, color);
    let kn = crate::movegenerator::knight_moves_spec(v, color);
    let bi = slider_part(v, color, 0);
    let ro = slider_part(v, color, 1);
    let qb = slider_part(v, color, 2);
    let qr = slider_part(v, color, 3);
    let am = crate::movegenerator::attack_moves(v, color);
    assert(am == pa + kn + bi + ro + (qb + qr));
    let offset = if sel == 0 {
        pa.len() + kn.len()
    } else if sel == 1 {
        pa.len() + kn.len() + bi.len()
    } else if sel == 2 {
        pa.len() + kn.len() + bi.len() + ro.len()
    } else {
        pa.len() + kn.len() + bi.len() + ro.len() + qb.len()
    };
    assert(am[offset + k] == slider_part(v, color, sel)[k]);
    assert(crate::movegenerator::hits(am[offset + k], square));
}

/// The move from square `s` to square `t` ends on `t`.
proof fn lemma_normal_hits(s: u64, t: u64, piece: u8, color: u8)
    requires
        s < 64,
        t < 64,
        piece < 8,
        color < 2,
    ensures
        crate::movegenerator::hits(crate::movegenerator::normal(1u64 << s, 1u64 << t, piece, color), square_bit(t as int)),
{
    lemma_encode_decode(s, t, piece, color);
    lemma_union_meets(0, 0, 0, 0, 0, 0, 0, 0, 0, 0, t, t);
}

/// A slider of the part `sel` on square `s` whose targets hold `t` attacks
/// `t`.
proof fn lemma_slider_attacks(v: BoardView, color: u8, sel: int, s: u64, t: u64, targets: u64)
    requires
        is_color(color),
        0 <= sel < 4,
        s < 64,
        t < 64,
        targets & square_bit(t as int) != 0,
        targets == (if sel == 0 || sel == 2 {
            crate::movegenerator::bishop_targets(1u64 << s, crate::movegenerator::own_occupancy(v, color), v.white | v.black)
        } else {
            crate::movegenerator::rook_targets(1u64 << s, crate::movegenerator::own_occupancy(v, color), v.white | v.black)
        }),
        (if sel == 0 { mask_of(v, BISHOP, color) } else if sel == 1 { mask_of(v, ROOK, color) } else { mask_of(v, QUEEN, color) })
            & (1u64 << s) != 0,
    ensures
        crate::movegenerator::attacked(v, square_bit(t as int), color),
{
    let piece = if sel == 0 { BISHOP } else if sel == 1 { ROOK } else { QUEEN };
    let sliders = if sel == 0 { mask_of(v, BISHOP, color) } else if sel == 1 { mask_of(v, ROOK, color) } else { mask_of(v, QUEEN, color) };
    let g = if sel == 0 || sel == 2 {
        crate::movegenerator::bishop_from(v, color, piece)
    } else {
        crate::movegenerator::rook_from(v, color, piece)
    };
    assert(slider_part(v, color, sel) == expand(sliders, g));
    lemma_target_move_in(sliders, g, s, targets, t, piece, color);
    let mv = crate::movegenerator::normal(1u64 << s, 1u64 << t, piece, color);
    let k = choose|k: int| 0 <= k < expand(sliders, g).len() && expand(sliders, g)[k] == mv;
    lemma_normal_hits(s, t, piece, color);
    lemma_hit_in_attacks(v, color, sel, k, square_bit(t as int));
}

/// A rook or queen sees along its file and rank, and a bishop or queen
/// along its diagonals: when a slider of `color` stands on square `s`, the
/// squares strictly between `s` and `t` on their shared line are empty and
/// no piece of `color` stands on `t`, then `color` attacks `t`.
pub proof fn lemma_clear_line_attacked(v: BoardView, color: u8, s: u64, t: u64)
    requires
        is_color(color),
        s < 64,
        t < 64,
        (straight_line(s as int, t as int) && (mask_of(v, ROOK, color) & square_bit(s as int) != 0 || mask_of(
            v,
            QUEEN,
            color,
        ) & square_bit(s as int) != 0)) || (diagonal_line(s as int, t as int) && (mask_of(v, BISHOP, color)
            & square_bit(s as int) != 0 || mask_of(v, QUEEN, color) & square_bit(s as int) != 0)),
        line_clear(v.white | v.black, s as int, t as int),
        crate::movegenerator::own_occupancy(v, color) & square_bit(t as int) == 0,
    ensures
        crate::movegenerator::attacked(v, square_bit(t as int), color),
{
    let own = crate::movegenerator::own_occupancy(v, color);
    let all = v.white | v.black;
    let from = 1u64 << s;
    assert(square_bit(s as int) == from);
    if straight_line(s as int, t as int) && (mask_of(v, ROOK, color) & from != 0 || mask_of(v, QUEEN, color)
        & from != 0) {
        lemma_rook_targets_reach(s, t, own, all);
        let targets = crate::movegenerator::rook_targets(from, own, all);
        if mask_of(v, ROOK, color) & from != 0 {
            lemma_slider_attacks(v, color, 1, s, t, targets);
        } else {
            lemma_slider_attacks(v, color, 3, s, t, targets);
        }
    } else {
        lemma_bishop_targets_reach(s, t, own, all);
        let targets = crate::movegenerator::bishop_targets(from, own, all);
        if mask_of(v, BISHOP, color) & from != 0 {
            lemma_slider_attacks(v, color, 0, s, t, targets);
        } else {
            lemma_slider_attacks(v, color, 2, s, t, targets);
        }
    }
}

/// A knight of `color` on square `s` attacks every square a knight's jump
/// away that holds no piece of `color`.
pub proof fn lemma_knight_jump_attacked(v: BoardView, color: u8, s: u64, t: u64)
    requires
        is_color(color),
        s < 64,
        t < 64,
        mask_of(v, KNIGHT, color) & square_bit(s as int) != 0,
        knight_jump(s as int, t as int),
        crate::movegenerator::own_occupancy(v, color) & square_bit(t as int) == 0,
    ensures
        crate::movegenerator::attacked(v, square_bit(t as int), color),
{
    let own = crate::movegenerator::own_occupancy(v, color);
    let from = 1u64 << s;
    let targets = knight_targets(from, own);
    lemma_knight_targets_exact(s, t, own);
    let knights = mask_of(v, KNIGHT, color);
    let g = crate::movegenerator::knight_from(v, color);
    lemma_target_move_in(knights, g, s, targets, t, KNIGHT, color);
    let mv = crate::movegenerator::normal(from, 1u64 << t, KNIGHT, color);
    let kn = crate::movegenerator::knight_moves_spec(v, color);
    assert(kn == expand(knights, g));
    let k = choose|k: int| 0 <= k < kn.len() && kn[k] == mv;
    lemma_normal_hits(s, t, KNIGHT, color);
    let pa = crate::movegenerator::pawn_moves_spec(v, color);
    let am = crate::movegenerator::attack_moves(v, color);
    assert(am == pa + kn + slider_part(v, color, 0) + slider_part(v, color, 1) + (slider_part(v, color, 2)
        + slider_part(v, color, 3)));
    assert(am[pa.len() + k] == mv);
    assert(crate::movegenerator::hits(am[pa.len() + k], square_bit(t as int)));
}

/// What `f` gives for a square of `pieces` below `n` appears among the
/// moves gathered over those squares.
proof fn lemma_over_squares_has(pieces: u64, f: spec_fn(u64) -> Seq<(u64, u64)>, n: int, sq: u64, j: int)
    requires
        sq < n <= 64,
        pieces & (1u64 << sq) != 0,
        0 <= j < f(sq).len(),
    ensures
        exists|k: int| 0 <= k < over_squares(pieces, f, n).len() && over_squares(pieces, f, n)[k] == f(sq)[j],
    decreases n,
{
    let head = over_squares(pieces, f, n - 1);
    let tail = if pieces & (1u64 << ((n - 1) as u64)) != 0 {
        f((n - 1) as u64)
    } else {
        Seq::<(u64, u64)>::empty()
    };
    let all = over_squares(pieces, f, n);
    assert(all == head + tail);
    if sq == n - 1 {
        assert(all[head.len() + j] == f(sq)[j]);
    } else {
        lemma_over_squares_has(pieces, f, n - 1, sq, j);
        let k = choose|k: int| 0 <= k < head.len() && head[k] == f(sq)[j];
        assert(all[k] == head[k]);
    }
}

/// A scan of targets below `n` gives the move to each of its squares.
proof fn lemma_scan_has(from: u64, targets: u64, n: int, t: u64)
    requires
        t < n <= 64,
        targets & (1u64 << t) != 0,
    ensures
        scan_targets(from, targets, n).contains((from, 1u64 << t)),
    decreases n,
{
    let head = scan_targets(from, targets, n - 1);
    let all = scan_targets(from, targets, n);
    if t == n - 1 {
        assert(all[head.len() as int] == (from, 1u64 << t));
    } else {
        lemma_scan_has(from, targets, n - 1, t);
        let k = choose|k: int| 0 <= k < head.len() && head[k] == (from, 1u64 << t);
        assert(all[k] == head[k]);
    }
}

/// A ray of the history board reaches the square `n` steps away when the
/// squares of the earlier steps are empty.
proof fn lemma_history_ray_reaches(all: u64, x: int, y: int, dx: int, dy: int, i: int, n: int)
    requires
        1 <= i <= n < 8,
        -1 <= dx <= 1,
        -1 <= dy <= 1,
        0 <= x < 8,
        0 <= y < 8,
        0 <= x + dx * n < 8,
        0 <= y + dy * n < 8,
        forall|k: int| i <= k < n ==> all & #[trigger] square_mask(x + dx * k, y + dy * k) == 0,
    ensures
        crate::board_history::movegen::ray(all, x, y, dx, dy, i) & square_mask(x + dx * n, y + dy * n) != 0,
    decreases n - i,
{
    let b = square_mask(x + dx * n, y + dy * n);
    let nx = x + dx * i;
    let ny = y + dy * i;
    assert(0 <= nx < 8) by (nonlinear_arith)
        requires
            nx == x + dx * i,
            1 <= i <= n,
            -1 <= dx <= 1,
            0 <= x < 8,
            0 <= x + dx * n < 8,
    ;
    assert(0 <= ny < 8) by (nonlinear_arith)
        requires
            ny == y + dy * i,
            1 <= i <= n,
            -1 <= dy <= 1,
            0 <= y < 8,
            0 <= y + dy * n < 8,
    ;
    let a = square_mask(nx, ny);
    lemma_union_meets(0, 0, 0, 0, 0, 0, 0, 0, 0, 0, (nx + ny * 8) as u64, (nx + ny * 8) as u64);
    if i == n {
        let r = crate::board_history::movegen::ray(all, x, y, dx, dy, i + 1);
        lemma_line_bits(a, r, 0, b, 0, 0, 0, 0);
    } else {
        assert(all & a == 0);
        lemma_history_ray_reaches(all, x, y, dx, dy, i + 1, n);
        let r = crate::board_history::movegen::ray(all, x, y, dx, dy, i + 1);
        lemma_line_bits(r, a, 0, b, 0, 0, 0, 0);
    }
}

/// A union of four masks, without the squares of `own`, meets `b` when one
/// of them does and `own` does not.
proof fn lemma_union4(r1: u64, r2: u64, r3: u64, r4: u64, own: u64, b: u64)
    requires
        own & b == 0,
        r1 & b != 0 || r2 & b != 0 || r3 & b != 0 || r4 & b != 0,
    ensures
        ((((r1 | r2) | r3) | r4) & !own) & b != 0,
{
    lemma_line_bits(r1, r2, 0, b, 0, 0, 0, 0);
    lemma_line_bits(r2, r1, 0, b, 0, 0, 0, 0);
    let u = r1 | r2;
    lemma_line_bits(u, r3, 0, b, 0, 0, 0, 0);
    lemma_line_bits(r3, u, 0, b, 0, 0, 0, 0);
    let w = u | r3;
    lemma_line_bits(w, r4, 0, b, 0, 0, 0, 0);
    lemma_line_bits(r4, w, 0, b, 0, 0, 0, 0);
    lemma_line_bits(w | r4, 0, own, b, 0, 0, 0, 0);
}

/// The ray of the history board from square `sq` in direction (dx, dy)
/// reaches `t` when `t` lies that way on a clear line.
proof fn lemma_history_dir(sq: u64, t: u64, all: u64, dx: int, dy: int)
    requires
        sq < 64,
        t < 64,
        -1 <= dx <= 1,
        -1 <= dy <= 1,
        sign((t % 8) as int - (sq % 8) as int) == dx,
        sign((t / 8) as int - (sq / 8) as int) == dy,
        straight_line(sq as int, t as int) || diagonal_line(sq as int, t as int),
        line_clear(all, sq as int, t as int),
    ensures
        crate::board_history::movegen::ray(all, (sq % 8) as int, (sq / 8) as int, dx, dy, 1) & (1u64 << t) != 0,
{
    let x = (sq % 8) as int;
    let y = (sq / 8) as int;
    let n = line_len(sq as int, t as int);
    assert(line_step(sq as int, t as int) == dx + 8 * dy);
    assert(1 <= n < 8);
    assert(t % 8 == x + dx * n && t / 8 == y + dy * n) by {
        if dx == 1 {
        } else if dx == -1 {
        } else {
        }
        if dy == 1 {
        } else if dy == -1 {
        } else {
        }
    }
    assert forall|k: int| 1 <= k < n implies all & #[trigger] square_mask(x + dx * k, y + dy * k) == 0 by {
        assert(all & square_bit(sq + line_step(sq as int, t as int) * k) == 0);
        assert(x + dx * k + (y + dy * k) * 8 == sq + (dx + 8 * dy) * k) by (nonlinear_arith)
            requires
                x == sq % 8,
                y == sq / 8,
        ;
    }
    lemma_history_ray_reaches(all, x, y, dx, dy, 1, n);
    assert(x + dx * n + (y + dy * n) * 8 == t);
}

/// A rook of the history board on square `sq` reaches `t` on its file or
/// rank over a clear line when no own piece stands on `t`; a bishop
/// likewise on its diagonals.
proof fn lemma_history_slider_reach(sq: u64, t: u64, own: u64, all: u64)
    requires
        sq < 64,
        t < 64,
        line_clear(all, sq as int, t as int),
        own & (1u64 << t) == 0,
    ensures
        straight_line(sq as int, t as int) ==> crate::board_history::movegen::rook_targets(sq, own, all) & (1u64
            << t) != 0,
        diagonal_line(sq as int, t as int) ==> crate::board_history::movegen::bishop_targets(sq, own, all) & (1u64
            << t) != 0,
{
    let x = (sq % 8) as int;
    let y = (sq / 8) as int;
    let dx = sign((t % 8) as int - x);
    let dy = sign((t / 8) as int - y);
    let b = 1u64 << t;
    if straight_line(sq as int, t as int) || diagonal_line(sq as int, t as int) {
        lemma_history_dir(sq, t, all, dx, dy);
    }
    if straight_line(sq as int, t as int) {
        lemma_union4(
            crate::board_history::movegen::ray(all, x, y, 1, 0, 1),
            crate::board_history::movegen::ray(all, x, y, -1, 0, 1),
            crate::board_history::movegen::ray(all, x, y, 0, 1, 1),
            crate::board_history::movegen::ray(all, x, y, 0, -1, 1),
            own,
            b,
        );
    }
    if diagonal_line(sq as int, t as int) {
        lemma_union4(
            crate::board_history::movegen::ray(all, x, y, 1, 1, 1),
            crate::board_history::movegen::ray(all, x, y, -1, -1, 1),
            crate::board_history::movegen::ray(all, x, y, 1, -1, 1),
            crate::board_history::movegen::ray(all, x, y, -1, 1, 1),
            own,
            b,
        );
    }
}

/// A slider of the history board on square `sq` whose targets hold `t`
/// gives the move from `sq` to `t`.
proof fn lemma_slider_move_listed(p: PositionView, color: i8, qm: Option<u64>, rook_way: bool, sq: u64, t: u64)
    requires
        sq < 64,
        t < 64,
        slider_pieces(p, color, if rook_way { ROOK } else { BISHOP }, qm) & (1u64 << sq) != 0,
        (if rook_way {
            crate::board_history::movegen::rook_targets(sq, crate::board_history::movegen::own_of(p, color), p.white | p.black)
        } else {
            crate::board_history::movegen::bishop_targets(sq, crate::board_history::movegen::own_of(p, color), p.white | p.black)
        }) & (1u64 << t) != 0,
    ensures
        (if rook_way { rook_moves(p, color, qm) } else { bishop_moves(p, color, qm) }).contains((1u64 << sq, 1u64 << t)),
{
    let from = 1u64 << sq;
    let mv = (from, 1u64 << t);
    let g = |to: u64| seq![(from, to)];
    if rook_way {
        let pieces = slider_pieces(p, color, ROOK, qm);
        let f = |s: u64| moves_to(1u64 << s, crate::board_history::movegen::rook_targets(s, crate::board_history::movegen::own_of(p, color), p.white | p.black));
        let targets = crate::board_history::movegen::rook_targets(sq, crate::board_history::movegen::own_of(p, color), p.white | p.black);
        assert(f(sq) == expand(targets, g));
        lemma_expand_has(targets, g, t, 0);
        let j = choose|j: int| 0 <= j < f(sq).len() && #[trigger] f(sq)[j] == mv;
        lemma_over_squares_has(pieces, f, 64, sq, j);
        assert(rook_moves(p, color, qm) == over_squares(pieces, f, 64));
    } else {
        let pieces = slider_pieces(p, color, BISHOP, qm);
        let f = |s: u64| moves_to(1u64 << s, crate::board_history::movegen::bishop_targets(s, crate::board_history::movegen::own_of(p, color), p.white | p.black));
        let targets = crate::board_history::movegen::bishop_targets(sq, crate::board_history::movegen::own_of(p, color), p.white | p.black);
        assert(f(sq) == expand(targets, g));
        lemma_expand_has(targets, g, t, 0);
        let j = choose|j: int| 0 <= j < f(sq).len() && #[trigger] f(sq)[j] == mv;
        lemma_over_squares_has(pieces, f, 64, sq, j);
        assert(bishop_moves(p, color, qm) == over_squares(pieces, f, 64));
    }
}

/// Whether a piece of `kind` on square `s` reaches square `t` with the
/// squares of `occupied` filled: a knight by its jump, a bishop along a
/// clear diagonal, a rook along a clear file or rank, a queen along either.
pub open spec fn piece_reaches(kind: u8, occupied: u64, s: int, t: int) -> bool {
    if kind == KNIGHT {
        knight_jump(s, t)
    } else if kind == BISHOP {
        diagonal_line(s, t) && line_clear(occupied, s, t)
    } else if kind == ROOK {
        straight_line(s, t) && line_clear(occupied, s, t)
    } else if kind == QUEEN {
        (diagonal_line(s, t) || straight_line(s, t)) && line_clear(occupied, s, t)
    } else {
        false
    }
}

/// A request for the moves of a named knight, bishop, rook or queen on the
/// clicked square (x, y) lists the move to every square that piece reaches
/// and that holds no piece of its side.
pub proof fn lemma_requested_moves_complete(p: PositionView, x: u8, y: u8, name: Seq<char>, t: u64)
    requires
        named_piece(name) is Some,
        x < 8,
        y < 8,
        t < 64,
        board_of(p, named_piece(name).unwrap().0, named_piece(name).unwrap().1) & square_mask(x as int, y as int)
            != 0,
        piece_reaches(named_piece(name).unwrap().0, p.white | p.black, x + 8 * y, t as int),
        (if named_piece(name).unwrap().1 == crate::board_history::board::WHITE {
            p.white
        } else {
            p.black
        }) & (1u64 << t) == 0,
    ensures
        requested_moves_spec(p, x, y, name).contains((square_mask(x as int, y as int), 1u64 << t)),
{
    let kind = named_piece(name).unwrap().0;
    let color = named_piece(name).unwrap().1;
    let sq = (x + 8 * y) as u64;
    let from = 1u64 << sq;
    let mv = (from, 1u64 << t);
    let own = crate::board_history::movegen::own_of(p, color);
    let all_occ = p.white | p.black;
    let all = moves_for_piece(p, name).unwrap();
    assert(moves_for_piece(p, name) is Some);
    assert(from == square_mask(x as int, y as int));
    assert(sq % 8 == x && sq / 8 == y);
    if kind == KNIGHT {
        lemma_history_knight_targets_exact(sq, t, own);
        let f = |s: u64| scan_targets(1u64 << s, crate::board_history::movegen::knight_targets(s, own), 64);
        lemma_scan_has(from, crate::board_history::movegen::knight_targets(sq, own), 64, t);
        let j = choose|j: int| 0 <= j < f(sq).len() && #[trigger] f(sq)[j] == mv;
        lemma_over_squares_has(kind_of(p, KNIGHT, color), f, 64, sq, j);
        assert(all == knight_moves(p, color));
    } else {
        lemma_history_slider_reach(sq, t, own, all_occ);
        let qm = if kind == QUEEN { Some(board_of(p, QUEEN, color)) } else { None::<u64> };
        let rook_way = kind == ROOK || (kind == QUEEN && straight_line(sq as int, t as int));
        lemma_slider_move_listed(p, color, qm, rook_way, sq, t);
        if kind == QUEEN {
            let bm = bishop_moves(p, color, qm);
            let rm = rook_moves(p, color, qm);
            assert(all == bm + rm);
            if rook_way {
                let k = choose|k: int| 0 <= k < rm.len() && rm[k] == mv;
                assert(all[bm.len() + k] == mv);
            } else {
                let k = choose|k: int| 0 <= k < bm.len() && bm[k] == mv;
                assert(all[k] == mv);
            }
        } else if kind == ROOK {
            assert(all == rook_moves(p, color, None));
        } else {
            assert(all == bishop_moves(p, color, None));
        }
    }
    let i = choose|i: int| 0 <= i < all.len() && all[i] == mv;
    crate::bits::lemma_low_index_single(sq);
    assert(leaves(mv, x, y));
    all.lemma_filter_contains(leaves_fn(x, y), i);
}

/// The bit facts behind pawn captures: a pawn's diagonal squares in the
/// capture masks, and a one-square mask kept by `&` and by removing the
/// part of a mask on other squares.
proof fn lemma_pawn_capture_bits(pawns: u64, x: u64, y: u64, r: u64, s: u64, t: u64)
    ensures
        s % 8 != 0 && s + 7 < 64 && pawns & (1u64 << s) != 0 ==> ((pawns & !0x0101_0101_0101_0101u64) << 7u64)
            & (1u64 << ((s + 7) as u64)) != 0,
        s % 8 != 7 && s + 9 < 64 && pawns & (1u64 << s) != 0 ==> ((pawns & !0x8080_8080_8080_8080u64) << 9u64)
            & (1u64 << ((s + 9) as u64)) != 0,
        s % 8 != 0 && 9 <= s < 64 && pawns & (1u64 << s) != 0 ==> ((pawns & !0x0101_0101_0101_0101u64) >> 9u64)
            & (1u64 << ((s - 9) as u64)) != 0,
        s % 8 != 7 && 7 <= s < 64 && pawns & (1u64 << s) != 0 ==> ((pawns & !0x8080_8080_8080_8080u64) >> 7u64)
            & (1u64 << ((s - 7) as u64)) != 0,
        t < 64 && x & (1u64 << t) != 0 && y & (1u64 << t) != 0 ==> (x & y) & (1u64 << t) != 0,
        t < 64 && x & (1u64 << t) != 0 && r & (1u64 << t) == 0 ==> (x & !(x & r)) & (1u64 << t) != 0,
        t + 8 < 64 && x & (1u64 << t) != 0 ==> (x << 8u64) & (1u64 << ((t + 8) as u64)) != 0,
        8 <= t < 64 && x & (1u64 << t) != 0 ==> (x >> 8u64) & (1u64 << ((t - 8) as u64)) != 0,
        16 <= t < 24 ==> 0x0000_0000_00FF_0000u64 & (1u64 << t) != 0,
        40 <= t < 48 ==> 0x0000_FF00_0000_0000u64 & (1u64 << t) != 0,
{
    assert((s % 8 != 0 && s + 7 < 64 && pawns & (1u64 << s) != 0 ==> ((pawns & !0x0101_0101_0101_0101u64)
        << 7u64) & (1u64 << ((s + 7) as u64)) != 0) && (s % 8 != 7 && s + 9 < 64 && pawns & (1u64 << s) != 0
        ==> ((pawns & !0x8080_8080_8080_8080u64) << 9u64) & (1u64 << ((s + 9) as u64)) != 0) && (s % 8 != 0
        && 9 <= s && s < 64 && pawns & (1u64 << s) != 0 ==> ((pawns & !0x0101_0101_0101_0101u64) >> 9u64) & (
        1u64 << ((s - 9) as u64)) != 0) && (s % 8 != 7 && 7 <= s && s < 64 && pawns & (1u64 << s) != 0 ==> ((
        pawns & !0x8080_8080_8080_8080u64) >> 7u64) & (1u64 << ((s - 7) as u64)) != 0) && (t < 64 && x & (1u64
        << t) != 0 && y & (1u64 << t) != 0 ==> (x & y) & (1u64 << t) != 0) && (t < 64 && x & (1u64 << t) != 0
        && r & (1u64 << t) == 0 ==> (x & !(x & r)) & (1u64 << t) != 0) && (t + 8 < 64 && x & (1u64 << t) != 0
        ==> (x << 8u64) & (1u64 << ((t + 8) as u64)) != 0) && (8 <= t && t < 64 && x & (1u64 << t) != 0 ==> (x
        >> 8u64) & (1u64 << ((t - 8) as u64)) != 0) && (16 <= t && t < 24 ==> 0x0000_0000_00FF_0000u64 & (1u64
        << t) != 0) && (40 <= t && t < 48 ==> 0x0000_FF00_0000_0000u64 & (1u64 << t) != 0)) by (bit_vector);
}

/// A pawn move list of a mask that holds square `t` has the capture from
/// `s` to `t`, as a plain move and as a promotion to a queen.
proof fn lemma_pawn_part_has(mask: u64, shift: u64, up: bool, color: u8, s: u64, t: u64)
    requires
        s < 64,
        t < 64,
        1 <= shift < 64,
        is_color(color),
        mask & (1u64 << t) != 0,
        up ==> s + shift == t,
        !up ==> t + shift == s,
    ensures
        crate::movegenerator::step_moves(mask, shift, up, color).contains(
            crate::movegenerator::normal(1u64 << s, 1u64 << t, PAWN, color),
        ),
        crate::movegenerator::promotion_moves(mask, shift, up, color).contains(
            crate::movegenerator::promotion(1u64 << s, 1u64 << t, color, QUEEN),
        ),
        crate::movegenerator::hits(crate::movegenerator::normal(1u64 << s, 1u64 << t, PAWN, color), square_bit(t as int)),
        crate::movegenerator::hits(crate::movegenerator::promotion(1u64 << s, 1u64 << t, color, QUEEN), square_bit(t as int)),
{
    if up {
        lemma_line_bits(0, 0, 0, 0, 0, 0, t, shift);
    } else {
        lemma_line_bits(0, 0, 0, 0, 0, 0, t, shift);
    }
    assert(crate::movegenerator::pawn_origin(1u64 << t, shift, up) == 1u64 << s);
    let f = |to: u64| seq![crate::movegenerator::normal(crate::movegenerator::pawn_origin(to, shift, up), to, PAWN, color)];
    let g = |to: u64| crate::movegenerator::promotions_to(crate::movegenerator::pawn_origin(to, shift, up), to, color);
    lemma_expand_has(mask, f, t, 0);
    lemma_expand_has(mask, g, t, 0);
    lemma_normal_hits(s, t, PAWN, color);
}

/// A move of the pawn moves that ends on `square` is an attack on it.
proof fn lemma_pawn_hit_attacks(v: BoardView, color: u8, mv: (u16, MoveType), square: u64)
    requires
        crate::movegenerator::pawn_moves_spec(v, color).contains(mv),
        crate::movegenerator::hits(mv, square),
    ensures
        crate::movegenerator::attacked(v, square, color),
{
    broadcast use vstd::seq_lib::lemma_seq_concat_contains_all_elements;

    let am = crate::movegenerator::attack_moves(v, color);
    assert(am.contains(mv));
    let i = choose|i: int| 0 <= i < am.len() && am[i] == mv;
    assert(crate::movegenerator::hits(am[i], square));
}

/// A pawn attacks the squares diagonally in front of it: when a pawn of
/// `color` stands on square `s` and a piece of the other side stands on a
/// square `t` one file over and one rank ahead (upwards for white,
/// downwards for black), then `color` attacks `t`.
pub proof fn lemma_pawn_capture_attacked(v: BoardView, color: u8, s: u64, t: u64)
    requires
        is_color(color),
        s < 64,
        t < 64,
        mask_of(v, PAWN, color) & square_bit(s as int) != 0,
        gap((s % 8) as int, (t % 8) as int) == 1,
        if color == WHITE {
            t / 8 == s / 8 + 1
        } else {
            t / 8 + 1 == s / 8
        },
        (if color == WHITE {
            v.black
        } else {
            v.white
        }) & square_bit(t as int) != 0,
    ensures
        crate::movegenerator::attacked(v, square_bit(t as int), color),
{
    broadcast use vstd::seq_lib::lemma_seq_concat_contains_all_elements;

    let pawns = mask_of(v, PAWN, color);
    let b = square_bit(t as int);
    lemma_line_bits(0, 0, 0, 0, 0, 0, t, 0);
    let (shift, up, x0, edge) = if color == WHITE {
        if t % 8 + 1 == s % 8 {
            (7u64, true, (pawns & !FILE_0) << 7u64, RANK_8)
        } else {
            (9u64, true, (pawns & !FILE_7) << 9u64, RANK_8)
        }
    } else {
        if t % 8 + 1 == s % 8 {
            (9u64, false, (pawns & !FILE_0) >> 9u64, RANK_1)
        } else {
            (7u64, false, (pawns & !FILE_7) >> 7u64, RANK_1)
        }
    };
    let opp = if color == WHITE { v.black } else { v.white };
    lemma_pawn_capture_bits(pawns, 0, 0, 0, s, t);
    assert(x0 & b != 0);
    lemma_pawn_capture_bits(pawns, x0, opp, edge, s, t);
    let r0 = x0 & opp;
    lemma_pawn_capture_bits(pawns, r0, edge, edge, s, t);
    if edge & b != 0 {
        assert((r0 & edge) & b != 0);
        lemma_pawn_part_has(r0 & edge, shift, up, color, s, t);
        lemma_pawn_hit_attacks(v, color, crate::movegenerator::promotion(1u64 << s, 1u64 << t, color, QUEEN), b);
    } else {
        assert((r0 & !(r0 & edge)) & b != 0);
        lemma_pawn_part_has(r0 & !(r0 & edge), shift, up, color, s, t);
        lemma_pawn_hit_attacks(v, color, crate::movegenerator::normal(1u64 << s, 1u64 << t, PAWN, color), b);
    }
}

/// The square of the king of `color` before castling.
pub open spec fn king_home(color: u8) -> int {
    if color == WHITE {
        3
    } else {
        59
    }
}

/// Where the king and the rook land when castling with the rook on
/// `rook_square`.
pub open spec fn castling_targets(rook_square: int) -> (int, int) {
    if rook_square == 0 {
        (1, 2)
    } else if rook_square == 7 {
        (5, 4)
    } else if rook_square == 56 {
        (57, 58)
    } else {
        (61, 60)
    }
}

/// The castling move of `color` with the rook on `rook_square`.
pub open spec fn castling_for(color: u8, rook_square: int) -> (u16, MoveType) {
    castle(
        square_bit(king_home(color)),
        square_bit(castling_targets(rook_square).0),
        color,
        square_bit(rook_square),
        square_bit(castling_targets(rook_square).1),
    )
}

/// Castling is offered whenever it is allowed: when the side holds the
/// right for a rook on its home rank corner, the squares between king and
/// rook are empty, and once castled neither the king's nor the rook's new
/// square is attacked by the other side, the castling move is generated.
pub proof fn lemma_castling_offered(v: BoardView, color: u8, rook_square: int)
    requires
        (color == WHITE && (rook_square == 0 || rook_square == 7)) || (color == BLACK && (rook_square == 56
            || rook_square == 63)),
        v.castling & castling_right_for(rook_square) != 0,
        between_empty(v.white | v.black, king_home(color), rook_square),
        !attacked(
            move_piece_view(v, KING, color, castling_for(color, rook_square)),
            square_bit(castling_targets(rook_square).0),
            opponent(color),
        ),
        !attacked(
            move_piece_view(v, KING, color, castling_for(color, rook_square)),
            square_bit(castling_targets(rook_square).1),
            opponent(color),
        ),
    ensures
        castling_moves(v, color).contains(castling_for(color, rook_square)),
{
    let occ = v.white | v.black;
    crate::constants::lemma_board_constants();
    let mv = castling_for(color, rook_square);
    let (a, b, c) = if rook_square == 0 {
        (1int, 2int, 2int)
    } else if rook_square == 7 {
        (4int, 5int, 6int)
    } else if rook_square == 56 {
        (57int, 58int, 58int)
    } else {
        (60int, 61int, 62int)
    };
    assert(occ & square_bit(a) == 0 && occ & square_bit(b) == 0 && occ & square_bit(c) == 0);
    lemma_line_bits(0, occ, 0, 0, square_bit(a), square_bit(b), 0, 0);
    lemma_line_bits(0, occ, 0, 0, square_bit(a) | square_bit(b), square_bit(c), 0, 0);
    lemma_line_bits(0, square_bit(a), 0, 0, 0, occ, 0, 0);
    lemma_line_bits(0, square_bit(b), 0, 0, 0, occ, 0, 0);
    lemma_line_bits(0, square_bit(c), 0, 0, 0, occ, 0, 0);
    lemma_line_bits(0, square_bit(a) | square_bit(b), 0, 0, 0, occ, 0, 0);
    lemma_line_bits(0, (square_bit(a) | square_bit(b)) | square_bit(c), 0, 0, 0, occ, 0, 0);
    lemma_line_bits(0, square_bit(a), 0, 0, 0, square_bit(b), 0, 0);
    let cm = castling_moves(v, color);
    if rook_square == 0 || rook_square == 56 {
        assert(cm[0] == mv);
    } else {
        let first = if color == WHITE {
            castle_if(
                v,
                WHITE,
                v.castling & WHITE_KINGSIDE_CASTLE != 0 && occ & ((1u64 << 1u64) | (1u64 << 2u64)) == 0,
                castle(1u64 << 3u64, 1u64 << 1u64, WHITE, 1u64, 1u64 << 2u64),
                1u64 << 2u64,
                1u64 << 1u64,
            )
        } else {
            castle_if(
                v,
                BLACK,
                v.castling & BLACK_KINGSIDE_CASTLE != 0 && occ & ((1u64 << 57u64) | (1u64 << 58u64)) == 0,
                castle(1u64 << 59u64, 1u64 << 57u64, BLACK, 1u64 << 56u64, 1u64 << 58u64),
                1u64 << 58u64,
                1u64 << 57u64,
            )
        };
        assert(cm[first.len() as int] == mv);
    }
}

/// A square that a sweep adds from step `i` on is the square of a step `j`
/// from `i` on, before which no step met `stop`, and holds no own piece.
proof fn lemma_ray_sound(acc: u64, from: u64, step: u64, left: bool, stop: u64, own: u64, i: u64, t: u64)
    requires
        t < 64,
    ensures
        crate::movegenerator::ray_fill(acc, from, step, left, stop, own, i) & (1u64 << t) != 0 ==> acc & (1u64
            << t) != 0 || exists|j: u64|
            i <= j < 8 && ray_dest(from, step, left, j) & (1u64 << t) != 0 && own & (1u64 << t) == 0 && forall|
                k: u64,
            | i <= k < j ==> #[trigger] ray_dest(from, step, left, k) & stop == 0,
    decreases 8 - i,
{
    let b = 1u64 << t;
    if i < 8 {
        let d = ray_dest(from, step, left, i);
        let acc2 = acc | (d & !own);
        lemma_line_bits(acc, d & !own, 0, b, 0, 0, 0, 0);
        lemma_line_bits(0, d, own, 0, 0, 0, 0, t);
        if d & stop == 0 {
            lemma_ray_sound(acc2, from, step, left, stop, own, (i + 1) as u64, t);
            if crate::movegenerator::ray_fill(acc, from, step, left, stop, own, i) & b != 0 && acc & b == 0 {
                if acc2 & b != 0 {
                    assert(forall|k: u64| i <= k < i ==> #[trigger] ray_dest(from, step, left, k) & stop == 0);
                } else {
                    let j = choose|j: u64|
                        (i + 1) as u64 <= j < 8 && ray_dest(from, step, left, j) & b != 0 && own & b == 0 && forall|
                            k: u64,
                        | (i + 1) as u64 <= k < j ==> #[trigger] ray_dest(from, step, left, k) & stop == 0;
                    assert(forall|k: u64| i <= k < j ==> #[trigger] ray_dest(from, step, left, k) & stop == 0);
                }
            }
        } else {
            assert(forall|k: u64| i <= k < i ==> #[trigger] ray_dest(from, step, left, k) & stop == 0);
        }
    }
}

/// A square that a sweep from square `s`, stopping on the squares of `e`
/// and `all`, adds to `acc` lies some steps `j` along its line, holds no
/// own piece, and every square before it is in neither `e` nor `all`.
proof fn lemma_line_ray_sound(acc: u64, s: u64, step: u64, left: bool, e: u64, all: u64, own: u64, t: u64)
    requires
        s < 64,
        t < 64,
        1 <= step <= 9,
        crate::movegenerator::ray_fill(acc, 1u64 << s, step, left, e | all, own, 1) & square_bit(t as int) != 0,
        acc & square_bit(t as int) == 0,
    ensures
        exists|j: int|
            1 <= j < 8 && t == line_sq(s, step, left, j) && own & square_bit(t as int) == 0 && forall|k: int|
                1 <= k < j ==> (#[trigger] square_bit(line_sq(s, step, left, k))) & e == 0 && all & square_bit(
                    line_sq(s, step, left, k),
                ) == 0,
{
    let from = 1u64 << s;
    let b = 1u64 << t;
    lemma_ray_sound(acc, from, step, left, e | all, own, 1, t);
    let j = choose|j: u64|
        1 <= j < 8 && ray_dest(from, step, left, j) & b != 0 && own & b == 0 && forall|k: u64|
            1 <= k < j ==> #[trigger] ray_dest(from, step, left, k) & (e | all) == 0;
    assert(step * j < 64) by (nonlinear_arith)
        requires
            1 <= step <= 9,
            j < 8,
    ;
    lemma_line_bits(0, 0, 0, 0, 0, 0, s, (step * j) as u64);
    lemma_union_meets(0, 0, 0, 0, 0, 0, 0, 0, 0, b, 0, 0);
    let tj = line_sq(s, step, left, j as int);
    assert(0 <= tj < 64);
    lemma_union_meets(0, 0, 0, 0, 0, 0, 0, 0, 0, 0, tj as u64, t);
    assert(t == tj);
    assert forall|k: int| 1 <= k < j implies (#[trigger] square_bit(line_sq(s, step, left, k))) & e == 0 && all
        & square_bit(line_sq(s, step, left, k)) == 0 by {
        assert(step * k < step * j) by (nonlinear_arith)
            requires
                1 <= step,
                k < j,
        ;
        let ku = k as u64;
        lemma_line_bits(0, 0, 0, 0, 0, 0, s, (step * ku) as u64);
        let x = square_bit(line_sq(s, step, left, k));
        assert(ray_dest(from, step, left, ku) == x);
        lemma_line_bits(0, x, 0, 0, e, all, 0, 0);
    }
}

/// A square `j` steps of one file `df` and one rank `dr` from square `s`,
/// with no square before it on the far edge file, lies on the line from
/// `s` in that direction, and the squares before it are those that
/// `line_clear` asks to be empty.
proof fn lemma_line_geometry(s: u64, t: u64, df: int, dr: int, j: int, all: u64)
    requires
        s < 64,
        t < 64,
        1 <= j < 8,
        -1 <= df <= 1,
        -1 <= dr <= 1,
        df != 0 || dr != 0,
        t == s + (df + 8 * dr) * j,
        df == 1 ==> s % 8 != 7 && forall|k: int| 1 <= k < j ==> #[trigger] square_bit(s + (df + 8 * dr) * k) & FILE_7 == 0,
        df == -1 ==> s % 8 != 0 && forall|k: int| 1 <= k < j ==> #[trigger] square_bit(s + (df + 8 * dr) * k) & FILE_0 == 0,
        forall|k: int| 1 <= k < j ==> all & #[trigger] square_bit(s + (df + 8 * dr) * k) == 0,
    ensures
        t % 8 == s % 8 + df * j,
        t / 8 == s / 8 + dr * j,
        line_step(s as int, t as int) == df + 8 * dr,
        line_len(s as int, t as int) == j,
        line_clear(all, s as int, t as int),
{
    let d = df + 8 * dr;
    let fs = (s % 8) as int;
    let rs = (s / 8) as int;
    if df != 0 && !(0 <= fs + df * j <= 7) {
        let k0 = if df == 1 { 7 - fs } else { fs };
        if df == 1 {
            assert(df * j == j) by (nonlinear_arith)
                requires
                    df == 1,
            ;
        } else {
            assert(df * j == -j) by (nonlinear_arith)
                requires
                    df == -1,
            ;
        }
        assert(1 <= k0 < j);
        let x = s + d * k0;
        assert(x == 8 * (rs + dr * k0) + (fs + df * k0)) by (nonlinear_arith)
            requires
                x == s + d * k0,
                d == df + 8 * dr,
                s == 8 * rs + fs,
        ;
        assert(fs + df * k0 == if df == 1 { 7int } else { 0int }) by (nonlinear_arith)
            requires
                df == 1 || df == -1,
                k0 == (if df == 1 { 7 - fs } else { fs }),
        ;
        assert(0 <= x < 64) by (nonlinear_arith)
            requires
                x == s + d * k0,
                t == s + d * j,
                1 <= k0 < j,
                0 <= s < 64,
                0 <= t < 64,
        ;
        vstd::arithmetic::div_mod::lemma_fundamental_div_mod_converse(x, 8, rs + dr * k0, fs + df * k0);
        lemma_line_bits(0, 0, 0, 0, 0, 0, x as u64, 0);
        assert(square_bit(s + (df + 8 * dr) * k0) == square_bit(x));
        assert(false);
    }
    assert(0 <= fs + df * j <= 7) by (nonlinear_arith)
        requires
            df == 0 ==> 0 <= fs <= 7,
            df != 0 ==> 0 <= fs + df * j <= 7,
    ;
    assert(t == 8 * (rs + dr * j) + (fs + df * j)) by (nonlinear_arith)
        requires
            t == s + d * j,
            d == df + 8 * dr,
            s == 8 * rs + fs,
    ;
    vstd::arithmetic::div_mod::lemma_fundamental_div_mod_converse(t as int, 8, rs + dr * j, fs + df * j);
    assert(sign(df * j) == df && sign(dr * j) == dr) by (nonlinear_arith)
        requires
            1 <= j,
            -1 <= df <= 1,
            -1 <= dr <= 1,
    ;
    assert(gap(fs, fs + df * j) == (if df == 0 { 0 } else { j }) && gap(rs, rs + dr * j) == (if dr == 0 { 0 } else { j })) by (nonlinear_arith)
        requires
            1 <= j,
            -1 <= df <= 1,
            -1 <= dr <= 1,
    ;
    assert forall|i: int| 0 < i < line_len(s as int, t as int) implies all & #[trigger] square_bit(
        s + line_step(s as int, t as int) * i,
    ) == 0 by {
        assert(all & square_bit(s + d * i) == 0);
    }
}

/// A square that the sweep from square `s` in direction (`df`, `dr`) adds
/// to `acc` lies on the line from `s` that way, over empty squares, and
/// holds no own piece.
proof fn lemma_dir_sound(acc: u64, s: u64, t: u64, df: int, dr: int, e: u64, all: u64, own: u64)
    requires
        s < 64,
        t < 64,
        -1 <= df <= 1,
        -1 <= dr <= 1,
        df != 0 || dr != 0,
        df == 1 ==> e == FILE_7 || e == (RANK_8 | FILE_7) || e == (RANK_1 | FILE_7),
        df == -1 ==> e == FILE_0 || e == (FILE_0 | RANK_8) || e == (FILE_0 | RANK_1),
        (1u64 << s) & e == 0,
        crate::movegenerator::ray_fill(
            acc,
            1u64 << s,
            if df + 8 * dr > 0 { (df + 8 * dr) as u64 } else { (-(df + 8 * dr)) as u64 },
            df + 8 * dr > 0,
            e | all,
            own,
            1,
        ) & square_bit(t as int) != 0,
        acc & square_bit(t as int) == 0,
    ensures
        1 <= line_len(s as int, t as int) < 8,
        t % 8 == s % 8 + df * (line_len(s as int, t as int)),
        t / 8 == s / 8 + dr * (line_len(s as int, t as int)),
        line_step(s as int, t as int) == df + 8 * dr,
        line_clear(all, s as int, t as int),
        own & square_bit(t as int) == 0,
{
    let d = df + 8 * dr;
    let left = d > 0;
    let step: u64 = if left { d as u64 } else { (-d) as u64 };
    lemma_line_ray_sound(acc, s, step, left, e, all, own, t);
    let j = choose|j: int|
        1 <= j < 8 && t == line_sq(s, step, left, j) && own & square_bit(t as int) == 0 && forall|k: int|
            1 <= k < j ==> (#[trigger] square_bit(line_sq(s, step, left, k))) & e == 0 && all & square_bit(
                line_sq(s, step, left, k),
            ) == 0;
    lemma_line_bits(0, 1u64 << s, 0, 0, RANK_8, FILE_7, s, 0);
    lemma_line_bits(0, 1u64 << s, 0, 0, RANK_1, FILE_7, s, 0);
    lemma_line_bits(0, 1u64 << s, 0, 0, FILE_0, RANK_8, s, 0);
    lemma_line_bits(0, 1u64 << s, 0, 0, FILE_0, RANK_1, s, 0);
    assert forall|k: int| 1 <= k < j implies #[trigger] square_bit(s + d * k) & e == 0 && all & square_bit(s + d
        * k) == 0 by {
        assert(line_sq(s, step, left, k) == s + d * k) by (nonlinear_arith)
            requires
                line_sq(s, step, left, k) == (if left { s + step * k } else { s - step * k }),
                step == (if left { d } else { -d }),
        ;
        assert(square_bit(line_sq(s, step, left, k)) & e == 0);
    }
    assert forall|k: int| 1 <= k < j implies #[trigger] square_bit(s + d * k) & FILE_7 == 0 || df != 1 by {
        if df == 1 {
            let x = square_bit(s + d * k);
            assert(x & e == 0);
            lemma_line_bits(0, x, 0, 0, RANK_8, FILE_7, 0, 0);
            lemma_line_bits(0, x, 0, 0, RANK_1, FILE_7, 0, 0);
        }
    }
    assert forall|k: int| 1 <= k < j implies #[trigger] square_bit(s + d * k) & FILE_0 == 0 || df != -1 by {
        if df == -1 {
            let x = square_bit(s + d * k);
            assert(x & e == 0);
            lemma_line_bits(0, x, 0, 0, FILE_0, RANK_8, 0, 0);
            lemma_line_bits(0, x, 0, 0, FILE_0, RANK_1, 0, 0);
        }
    }
    assert(t == s + d * j) by (nonlinear_arith)
        requires
            t == line_sq(s, step, left, j),
            line_sq(s, step, left, j) == (if left { s + step * j } else { s - step * j }),
            step == (if left { d } else { -d }),
    ;
    lemma_line_geometry(s, t, df, dr, j, all);
}

/// A rook on square `s` reaches square `t` exactly when `t` is on its file
/// or rank, the squares between are empty in `all`, and no piece of `own`
/// stands on `t`.
pub proof fn lemma_rook_targets_exact(s: u64, t: u64, own: u64, all: u64)
    requires
        s < 64,
        t < 64,
    ensures
        (crate::movegenerator::rook_targets(1u64 << s, own, all) & square_bit(t as int) != 0) == (straight_line(
            s as int,
            t as int,
        ) && line_clear(all, s as int, t as int) && own & square_bit(t as int) == 0),
{
    let from = 1u64 << s;
    let b = square_bit(t as int);
    if straight_line(s as int, t as int) && line_clear(all, s as int, t as int) && own & b == 0 {
        lemma_rook_targets_reach(s, t, own, all);
    }
    if crate::movegenerator::rook_targets(from, own, all) & b != 0 {
        let m1 = if from & RANK_8 == 0 {
            crate::movegenerator::ray_fill(0, from, 8, true, RANK_8 | all, own, 1)
        } else {
            0
        };
        let m2 = if from & RANK_1 == 0 {
            crate::movegenerator::ray_fill(m1, from, 8, false, RANK_1 | all, own, 1)
        } else {
            m1
        };
        let m3 = if from & FILE_7 == 0 {
            crate::movegenerator::ray_fill(m2, from, 1, true, FILE_7 | all, own, 1)
        } else {
            m2
        };
        let m4 = if from & FILE_0 == 0 {
            crate::movegenerator::ray_fill(m3, from, 1, false, FILE_0 | all, own, 1)
        } else {
            m3
        };
        assert(crate::movegenerator::rook_targets(from, own, all) == m4 & !own);
        lemma_line_bits(0, m4, own, 0, 0, 0, 0, t);
        lemma_union_meets(0, 0, 0, 0, 0, 0, 0, 0, 0, b, 0, 0);
        if m3 & b == 0 {
            lemma_dir_sound(m3, s, t, -1, 0, FILE_0, all, own);
        } else if m2 & b == 0 {
            lemma_dir_sound(m2, s, t, 1, 0, FILE_7, all, own);
        } else if m1 & b == 0 {
            lemma_dir_sound(m1, s, t, 0, -1, RANK_1, all, own);
        } else {
            lemma_dir_sound(0, s, t, 0, 1, RANK_8, all, own);
        }
    }
}

/// A bishop on square `s` reaches square `t` exactly when `t` is on one of
/// its diagonals, the squares between are empty in `all`, and no piece of
/// `own` stands on `t`.
pub proof fn lemma_bishop_targets_exact(s: u64, t: u64, own: u64, all: u64)
    requires
        s < 64,
        t < 64,
    ensures
        (crate::movegenerator::bishop_targets(1u64 << s, own, all) & square_bit(t as int) != 0) == (diagonal_line(
            s as int,
            t as int,
        ) && line_clear(all, s as int, t as int) && own & square_bit(t as int) == 0),
{
    let from = 1u64 << s;
    let b = square_bit(t as int);
    if diagonal_line(s as int, t as int) && line_clear(all, s as int, t as int) && own & b == 0 {
        lemma_bishop_targets_reach(s, t, own, all);
    }
    if crate::movegenerator::bishop_targets(from, own, all) & b != 0 {
        let m1 = if from & (RANK_8 | FILE_7) == 0 {
            crate::movegenerator::ray_fill(0, from, 9, true, (RANK_8 | FILE_7) | all, own, 1)
        } else {
            0
        };
        let m2 = if from & (RANK_1 | FILE_7) == 0 {
            crate::movegenerator::ray_fill(m1, from, 7, false, (RANK_1 | FILE_7) | all, own, 1)
        } else {
            m1
        };
        let m3 = if from & (RANK_8 | FILE_0) == 0 {
            crate::movegenerator::ray_fill(m2, from, 7, true, (FILE_0 | RANK_8) | all, own, 1)
        } else {
            m2
        };
        let m4 = if from & (RANK_1 | FILE_0) == 0 {
            crate::movegenerator::ray_fill(m3, from, 9, false, (FILE_0 | RANK_1) | all, own, 1)
        } else {
            m3
        };
        assert(crate::movegenerator::bishop_targets(from, own, all) == m4 & !own);
        lemma_line_bits(0, m4, own, 0, 0, 0, 0, t);
        lemma_union_meets(0, 0, 0, 0, 0, 0, 0, 0, 0, b, 0, 0);
        lemma_line_bits(0, from, 0, 0, RANK_8, FILE_0, 0, 0);
        lemma_line_bits(0, from, 0, 0, RANK_1, FILE_0, 0, 0);
        lemma_line_bits(0, from, 0, 0, FILE_0, RANK_8, 0, 0);
        lemma_line_bits(0, from, 0, 0, FILE_0, RANK_1, 0, 0);
        if m3 & b == 0 {
            lemma_dir_sound(m3, s, t, -1, -1, FILE_0 | RANK_1, all, own);
        } else if m2 & b == 0 {
            lemma_dir_sound(m2, s, t, -1, 1, FILE_0 | RANK_8, all, own);
        } else if m1 & b == 0 {
            lemma_dir_sound(m1, s, t, 1, -1, RANK_1 | FILE_7, all, own);
        } else {
            lemma_dir_sound(0, s, t, 1, 1, RANK_8 | FILE_7, all, own);
        }
    }
}

/// Square `t` is the square of step `n` (from `i` on) of the ray from
/// (x, y) in direction (dx, dy), on the board, and the squares of the steps
/// before it are empty.
spec fn ray_hit(all: u64, x: int, y: int, dx: int, dy: int, i: int, n: int, t: u64) -> bool {
    i <= n < 8 && 0 <= x + dx * n < 8 && 0 <= y + dy * n < 8 && t == x + dx * n + (y + dy * n) * 8 && forall|
        k: int,
    | i <= k < n ==> all & #[trigger] square_mask(x + dx * k, y + dy * k) == 0
}

/// A square on a ray of the history board is the square of some step on
/// the board, and the squares of the steps before it are empty.
proof fn lemma_history_ray_sound(all: u64, x: int, y: int, dx: int, dy: int, i: int, t: u64)
    requires
        t < 64,
        i >= 1,
    ensures
        crate::board_history::movegen::ray(all, x, y, dx, dy, i) & (1u64 << t) != 0 ==> exists|n: int|
            #[trigger] ray_hit(all, x, y, dx, dy, i, n, t),
    decreases 8 - i,
{
    let b = 1u64 << t;
    lemma_union_meets(0, 0, 0, 0, 0, 0, 0, 0, 0, b, 0, 0);
    if i < 8 {
        let nx = x + dx * i;
        let ny = y + dy * i;
        if 0 <= nx <= 7 && 0 <= ny <= 7 {
            let sm = square_mask(nx, ny);
            lemma_union_meets(0, 0, 0, 0, 0, 0, 0, 0, 0, 0, (nx + ny * 8) as u64, t);
            if sm & b != 0 {
                assert(ray_hit(all, x, y, dx, dy, i, i, t));
            }
            if all & sm == 0 {
                let r = crate::board_history::movegen::ray(all, x, y, dx, dy, i + 1);
                lemma_history_ray_sound(all, x, y, dx, dy, i + 1, t);
                lemma_line_bits(sm, r, 0, b, 0, 0, 0, 0);
                if sm & b == 0 && r & b != 0 {
                    let n = choose|n: int| #[trigger] ray_hit(all, x, y, dx, dy, i + 1, n, t);
                    assert(ray_hit(all, x, y, dx, dy, i, n, t));
                }
            }
        }
    }
}

/// The square `n` steps from (x, y) in direction (dx, dy), over empty
/// squares, lies on the line from that square, and the squares before it
/// are those that `line_clear` asks to be empty.
proof fn lemma_history_dir_sound(sq: u64, t: u64, all: u64, dx: int, dy: int, n: int)
    requires
        sq < 64,
        t < 64,
        -1 <= dx <= 1,
        -1 <= dy <= 1,
        dx != 0 || dy != 0,
        1 <= n < 8,
        0 <= (sq % 8) as int + dx * n < 8,
        0 <= (sq / 8) as int + dy * n < 8,
        t == (sq % 8) as int + dx * n + ((sq / 8) as int + dy * n) * 8,
        forall|k: int|
            1 <= k < n ==> all & #[trigger] square_mask((sq % 8) as int + dx * k, (sq / 8) as int + dy * k) == 0,
    ensures
        t % 8 == (sq % 8) as int + dx * n,
        t / 8 == (sq / 8) as int + dy * n,
        line_step(sq as int, t as int) == dx + 8 * dy,
        line_len(sq as int, t as int) == n,
        line_clear(all, sq as int, t as int),
{
    let x = (sq % 8) as int;
    let y = (sq / 8) as int;
    vstd::arithmetic::div_mod::lemma_fundamental_div_mod_converse(t as int, 8, y + dy * n, x + dx * n);
    assert(sign(dx * n) == dx && sign(dy * n) == dy) by (nonlinear_arith)
        requires
            1 <= n,
            -1 <= dx <= 1,
            -1 <= dy <= 1,
    ;
    assert(gap(x, x + dx * n) == (if dx == 0 { 0 } else { n }) && gap(y, y + dy * n) == (if dy == 0 { 0 } else { n })) by (nonlinear_arith)
        requires
            1 <= n,
            -1 <= dx <= 1,
            -1 <= dy <= 1,
    ;
    assert forall|i: int| 0 < i < line_len(sq as int, t as int) implies all & #[trigger] square_bit(
        sq + line_step(sq as int, t as int) * i,
    ) == 0 by {
        assert(all & square_mask(x + dx * i, y + dy * i) == 0);
        assert(x + dx * i + (y + dy * i) * 8 == sq + (dx + 8 * dy) * i) by (nonlinear_arith)
            requires
                x == sq % 8,
                y == sq / 8,
        ;
    }
}

/// A square on the ray of the history board from square `sq` in direction
/// (dx, dy) lies on the line from `sq` that way, over empty squares.
proof fn lemma_history_ray_line(sq: u64, t: u64, all: u64, dx: int, dy: int)
    requires
        sq < 64,
        t < 64,
        -1 <= dx <= 1,
        -1 <= dy <= 1,
        dx != 0 || dy != 0,
        crate::board_history::movegen::ray(all, (sq % 8) as int, (sq / 8) as int, dx, dy, 1) & (1u64 << t) != 0,
    ensures
        1 <= line_len(sq as int, t as int) < 8,
        t % 8 == (sq % 8) as int + dx * line_len(sq as int, t as int),
        t / 8 == (sq / 8) as int + dy * line_len(sq as int, t as int),
        line_clear(all, sq as int, t as int),
{
    let x = (sq % 8) as int;
    let y = (sq / 8) as int;
    lemma_history_ray_sound(all, x, y, dx, dy, 1, t);
    let n = choose|n: int| #[trigger] ray_hit(all, x, y, dx, dy, 1, n, t);
    lemma_history_dir_sound(sq, t, all, dx, dy, n);
}

/// A rook of the history board on square `sq` reaches square `t` exactly
/// when `t` is on its file or rank, the squares between are empty in
/// `all`, and no piece of `own` stands on `t`; a bishop likewise on its
/// diagonals.
pub proof fn lemma_history_slider_targets_exact(sq: u64, t: u64, own: u64, all: u64)
    requires
        sq < 64,
        t < 64,
    ensures
        (crate::board_history::movegen::rook_targets(sq, own, all) & (1u64 << t) != 0) == (straight_line(
            sq as int,
            t as int,
        ) && line_clear(all, sq as int, t as int) && own & (1u64 << t) == 0),
        (crate::board_history::movegen::bishop_targets(sq, own, all) & (1u64 << t) != 0) == (diagonal_line(
            sq as int,
            t as int,
        ) && line_clear(all, sq as int, t as int) && own & (1u64 << t) == 0),
{
    let x = (sq % 8) as int;
    let y = (sq / 8) as int;
    let b = 1u64 << t;
    if line_clear(all, sq as int, t as int) && own & b == 0 {
        lemma_history_slider_reach(sq, t, own, all);
    }
    let r1 = crate::board_history::movegen::ray(all, x, y, 1, 0, 1);
    let r2 = crate::board_history::movegen::ray(all, x, y, -1, 0, 1);
    let r3 = crate::board_history::movegen::ray(all, x, y, 0, 1, 1);
    let r4 = crate::board_history::movegen::ray(all, x, y, 0, -1, 1);
    let u = ((r1 | r2) | r3) | r4;
    lemma_line_bits(0, u, own, 0, 0, 0, 0, t);
    lemma_line_bits((r1 | r2) | r3, r4, 0, b, 0, 0, 0, 0);
    lemma_line_bits(r1 | r2, r3, 0, b, 0, 0, 0, 0);
    lemma_line_bits(r1, r2, 0, b, 0, 0, 0, 0);
    if r1 & b != 0 { lemma_history_ray_line(sq, t, all, 1, 0); }
    if r2 & b != 0 { lemma_history_ray_line(sq, t, all, -1, 0); }
    if r3 & b != 0 { lemma_history_ray_line(sq, t, all, 0, 1); }
    if r4 & b != 0 { lemma_history_ray_line(sq, t, all, 0, -1); }
    let d1 = crate::board_history::movegen::ray(all, x, y, 1, 1, 1);
    let d2 = crate::board_history::movegen::ray(all, x, y, -1, -1, 1);
    let d3 = crate::board_history::movegen::ray(all, x, y, 1, -1, 1);
    let d4 = crate::board_history::movegen::ray(all, x, y, -1, 1, 1);
    let w = ((d1 | d2) | d3) | d4;
    lemma_line_bits(0, w, own, 0, 0, 0, 0, t);
    lemma_line_bits((d1 | d2) | d3, d4, 0, b, 0, 0, 0, 0);
    lemma_line_bits(d1 | d2, d3, 0, b, 0, 0, 0, 0);
    lemma_line_bits(d1, d2, 0, b, 0, 0, 0, 0);
    if d1 & b != 0 { lemma_history_ray_line(sq, t, all, 1, 1); }
    if d2 & b != 0 { lemma_history_ray_line(sq, t, all, -1, -1); }
    if d3 & b != 0 { lemma_history_ray_line(sq, t, all, 1, -1); }
    if d4 & b != 0 { lemma_history_ray_line(sq, t, all, -1, 1); }
}

/// The square one rank ahead of square `s` for a pawn of `color`: upwards
/// for white, downwards for black.
pub open spec fn push_square(color: u8, s: int) -> int {
    if color == WHITE {
        s + 8
    } else {
        s - 8
    }
}

/// Whether square `t` is on the rank where a pawn of `color` promotes.
pub open spec fn promotion_rank(color: u8, t: int) -> bool {
    if color == WHITE {
        t >= 56
    } else {
        t < 8
    }
}

/// The squares that the pawns of `color` step to, before promotions are
/// told apart.
spec fn push_mask(v: BoardView, color: u8) -> u64 {
    if color == WHITE {
        ((mask_of(v, PAWN, WHITE) & !RANK_8) << 8u64) & !(v.white | v.black)
    } else {
        ((mask_of(v, PAWN, BLACK) & !RANK_1) >> 8u64) & !(v.black | v.white)
    }
}

/// A pawn with an empty square ahead of it is in the push mask there.
proof fn lemma_push_bit(v: BoardView, color: u8, s: u64)
    requires
        is_color(color),
        s < 64,
        mask_of(v, PAWN, color) & square_bit(s as int) != 0,
        0 <= push_square(color, s as int) < 64,
        (v.white | v.black) & square_bit(push_square(color, s as int)) == 0,
    ensures
        push_mask(v, color) & square_bit(push_square(color, s as int)) != 0,
{
    let pawns = mask_of(v, PAWN, color);
    let t = push_square(color, s as int) as u64;
    let bs = 1u64 << s;
    let b = 1u64 << t;
    let edge = if color == WHITE { RANK_8 } else { RANK_1 };
    let occ = if color == WHITE { v.white | v.black } else { v.black | v.white };
    lemma_line_bits(0, v.white, 0, 0, 0, 0, 0, 0);
    lemma_line_bits(v.black, v.white, 0, 0, 0, 0, 0, 0);
    assert(occ & b == 0);
    lemma_line_bits(0, 0, 0, 0, 0, 0, s, 0);
    lemma_line_bits(0, bs, 0, 0, 0, edge, 0, 0);
    lemma_line_bits(pawns, 0, edge, bs, 0, 0, 0, 0);
    let x = pawns & !edge;
    assert(x & bs != 0);
    lemma_pawn_capture_bits(0, x, 0, 0, 0, s);
    let y = if color == WHITE { x << 8u64 } else { x >> 8u64 };
    assert(y & b != 0);
    lemma_line_bits(y, 0, occ, b, 0, 0, 0, 0);
}

/// The promotions of a mask that holds square `t` include the four
/// promotions of the pawn move from `s` to `t`.
proof fn lemma_promotions_has(mask: u64, shift: u64, up: bool, color: u8, s: u64, t: u64)
    requires
        s < 64,
        t < 64,
        1 <= shift < 64,
        mask & (1u64 << t) != 0,
        up ==> s + shift == t,
        !up ==> t + shift == s,
    ensures
        crate::movegenerator::promotion_moves(mask, shift, up, color).contains(
            crate::movegenerator::promotion(1u64 << s, 1u64 << t, color, QUEEN),
        ),
        crate::movegenerator::promotion_moves(mask, shift, up, color).contains(
            crate::movegenerator::promotion(1u64 << s, 1u64 << t, color, ROOK),
        ),
        crate::movegenerator::promotion_moves(mask, shift, up, color).contains(
            crate::movegenerator::promotion(1u64 << s, 1u64 << t, color, BISHOP),
        ),
        crate::movegenerator::promotion_moves(mask, shift, up, color).contains(
            crate::movegenerator::promotion(1u64 << s, 1u64 << t, color, KNIGHT),
        ),
{
    lemma_line_bits(0, 0, 0, 0, 0, 0, t, shift);
    assert(crate::movegenerator::pawn_origin(1u64 << t, shift, up) == 1u64 << s);
    let g = |to: u64| crate::movegenerator::promotions_to(crate::movegenerator::pawn_origin(to, shift, up), to, color);
    lemma_expand_has(mask, g, t, 0);
    lemma_expand_has(mask, g, t, 1);
    lemma_expand_has(mask, g, t, 2);
    lemma_expand_has(mask, g, t, 3);
}

/// A pawn whose square ahead is empty may step there: as a plain move, or
/// on the last rank as a promotion to a queen, rook, bishop or knight.
pub proof fn lemma_pawn_push_offered(v: BoardView, color: u8, s: u64)
    requires
        is_color(color),
        s < 64,
        mask_of(v, PAWN, color) & square_bit(s as int) != 0,
        0 <= push_square(color, s as int) < 64,
        (v.white | v.black) & square_bit(push_square(color, s as int)) == 0,
    ensures
        !promotion_rank(color, push_square(color, s as int)) ==> crate::movegenerator::pawn_moves_spec(
            v,
            color,
        ).contains(crate::movegenerator::normal(1u64 << s, square_bit(push_square(color, s as int)), PAWN, color)),
        promotion_rank(color, push_square(color, s as int)) ==> crate::movegenerator::pawn_moves_spec(
            v,
            color,
        ).contains(crate::movegenerator::promotion(1u64 << s, square_bit(push_square(color, s as int)), color, QUEEN))
            && crate::movegenerator::pawn_moves_spec(v, color).contains(
            crate::movegenerator::promotion(1u64 << s, square_bit(push_square(color, s as int)), color, ROOK),
        ) && crate::movegenerator::pawn_moves_spec(v, color).contains(
            crate::movegenerator::promotion(1u64 << s, square_bit(push_square(color, s as int)), color, BISHOP),
        ) && crate::movegenerator::pawn_moves_spec(v, color).contains(
            crate::movegenerator::promotion(1u64 << s, square_bit(push_square(color, s as int)), color, KNIGHT),
        ),
{
    broadcast use vstd::seq_lib::lemma_seq_concat_contains_all_elements;

    lemma_push_bit(v, color, s);
    let t = push_square(color, s as int) as u64;
    let b = 1u64 << t;
    let push = push_mask(v, color);
    let edge = if color == WHITE { RANK_8 } else { RANK_1 };
    let up = color == WHITE;
    lemma_line_bits(0, 0, 0, 0, 0, 0, t, 0);
    lemma_line_bits(0, b, 0, 0, 0, edge, 0, 0);
    lemma_pawn_capture_bits(0, push, edge, edge, 0, t);
    if promotion_rank(color, t as int) {
        assert((push & edge) & b != 0);
        lemma_promotions_has(push & edge, 8, up, color, s, t);
    } else {
        assert((push & !(push & edge)) & b != 0);
        lemma_pawn_part_has(push & !(push & edge), 8, up, color, s, t);
    }
}

/// A pawn on its starting rank whose two squares ahead are empty may step
/// two squares at once.
pub proof fn lemma_double_push_offered(v: BoardView, color: u8, s: u64)
    requires
        is_color(color),
        s < 64,
        mask_of(v, PAWN, color) & square_bit(s as int) != 0,
        color == WHITE ==> 8 <= s < 16,
        color == BLACK ==> 48 <= s < 56,
        (v.white | v.black) & square_bit(push_square(color, s as int)) == 0,
        (v.white | v.black) & square_bit(push_square(color, push_square(color, s as int))) == 0,
    ensures
        crate::movegenerator::pawn_moves_spec(v, color).contains(
            (
                crate::chess_move::encode(
                    1u64 << s,
                    square_bit(push_square(color, push_square(color, s as int))),
                    PAWN,
                    color,
                ),
                MoveType::DoublePawnPush,
            ),
        ),
{
    broadcast use vstd::seq_lib::lemma_seq_concat_contains_all_elements;

    lemma_push_bit(v, color, s);
    let t1 = push_square(color, s as int) as u64;
    let t2 = push_square(color, t1 as int) as u64;
    let b1 = 1u64 << t1;
    let b2 = 1u64 << t2;
    let push = push_mask(v, color);
    let up = color == WHITE;
    let edge = if up { RANK_8 } else { RANK_1 };
    let home = if up { RANK_3 } else { RANK_6 };
    let occ = if up { v.white | v.black } else { v.black | v.white };
    lemma_line_bits(v.black, v.white, 0, 0, 0, 0, 0, 0);
    lemma_line_bits(0, 0, 0, 0, 0, 0, t1, 0);
    lemma_line_bits(0, b1, 0, 0, 0, edge, 0, 0);
    lemma_pawn_capture_bits(0, push, edge, edge, 0, t1);
    let single = push & !(push & edge);
    assert(single & b1 != 0);
    lemma_pawn_capture_bits(0, single, home, 0, 0, t1);
    let sh = single & home;
    assert(sh & b1 != 0);
    lemma_pawn_capture_bits(0, sh, 0, 0, 0, t1);
    let moved = if up { sh << 8u64 } else { sh >> 8u64 };
    assert(moved & b2 != 0);
    assert(occ & b2 == 0);
    lemma_line_bits(moved, 0, occ, b2, 0, 0, 0, 0);
    let double = moved & !occ;
    assert(double & b2 != 0);
    lemma_line_bits(0, 0, 0, 0, 0, 0, t2, 16);
    assert(crate::movegenerator::pawn_origin(b2, 16, up) == 1u64 << s);
    let f = |to: u64|
        seq![(crate::chess_move::encode(crate::movegenerator::pawn_origin(to, 16, up), to, PAWN, color), MoveType::DoublePawnPush)];
    lemma_expand_has(double, f, t2, 0);
    assert(crate::movegenerator::double_push_moves(double, up, color) == expand(double, f));
}

/// Every element of an expansion satisfies `p` when every element that `f`
/// gives for a square of the mask does.
proof fn lemma_expand_all_bits<A>(m: u64, f: spec_fn(u64) -> Seq<A>, p: spec_fn(A) -> bool)
    requires
        forall|i: u64, k: int| i < 64 && m & (1u64 << i) != 0 && 0 <= k < f(1u64 << i).len() ==> p(
            #[trigger] f(1u64 << i)[k],
        ),
    ensures
        forall|k: int| 0 <= k < expand(m, f).len() ==> p(#[trigger] expand(m, f)[k]),
    decreases m,
{
    if m != 0 {
        lemma_without_low_smaller(m);
        lemma_low_square(m);
        crate::bits::lemma_low_index(m);
        let l = crate::bits::low_index(m) as u64;
        assert(low_square(m) == 1u64 << l);
        assert forall|i: u64, k: int| i < 64 && without_low(m) & (1u64 << i) != 0 && 0 <= k < f(1u64 << i).len() implies p(
            #[trigger] f(1u64 << i)[k],
        ) by {
            lemma_pawn_origin_bits(1u64 << i, m, 0, 0, 0);
        }
        lemma_expand_all_bits(without_low(m), f, p);
        lemma_line_bits(0, low_square(m), 0, 0, 0, m, 0, 0);
        assert(m & (1u64 << l) != 0);
        let head = f(low_square(m));
        let tail = expand(without_low(m), f);
        assert forall|k: int| 0 <= k < expand(m, f).len() implies p(#[trigger] expand(m, f)[k]) by {
            if k < head.len() {
                assert(expand(m, f)[k] == head[k]);
                assert(p(f(1u64 << l)[k]));
            } else {
                assert(expand(m, f)[k] == tail[k - head.len()]);
            }
        }
    }
}

/// A move to one of `targets` from square `s` that ends on square `t` is
/// there because `targets` holds `t`.
proof fn lemma_target_moves_hit(s: u64, targets: u64, piece: u8, color: u8, t: u64)
    requires
        s < 64,
        t < 64,
        piece < 8,
        color < 2,
    ensures
        forall|k: int|
            0 <= k < crate::movegenerator::target_moves(1u64 << s, targets, piece, color).len() && crate::movegenerator::hits(
                #[trigger] crate::movegenerator::target_moves(1u64 << s, targets, piece, color)[k],
                square_bit(t as int),
            ) ==> targets & square_bit(t as int) != 0,
{
    let from = 1u64 << s;
    let b = square_bit(t as int);
    let f = |to: u64| seq![crate::movegenerator::normal(from, to, piece, color)];
    let p = |mv: (u16, MoveType)| crate::movegenerator::hits(mv, b) ==> targets & b != 0;
    assert forall|i: u64, k: int| i < 64 && targets & (1u64 << i) != 0 && 0 <= k < f(1u64 << i).len() implies p(
        #[trigger] f(1u64 << i)[k],
    ) by {
        lemma_encode_decode(s, i, piece, color);
        lemma_union_meets(0, 0, 0, 0, 0, 0, 0, 0, 0, 0, i, t);
    }
    lemma_expand_all_bits(targets, f, p);
    assert(crate::movegenerator::target_moves(from, targets, piece, color) == expand(targets, f));
    assert forall|k: int|
        0 <= k < crate::movegenerator::target_moves(from, targets, piece, color).len() && crate::movegenerator::hits(
            #[trigger] crate::movegenerator::target_moves(from, targets, piece, color)[k],
            b,
        ) implies targets & b != 0 by {
        assert(p(expand(targets, f)[k]));
    }
}

/// A knight, rook, bishop or queen of `color` on square `s` that reaches
/// square `t` the way its kind moves (a knight by a jump, a rook or queen
/// along a clear file or rank, a bishop or queen along a clear diagonal),
/// with no piece of `color` on `t`.
pub open spec fn attacker_on(v: BoardView, color: u8, s: u64, t: u64) -> bool {
    let on = |kind: u8| mask_of(v, kind, color) & square_bit(s as int) != 0;
    let occupied = v.white | v.black;
    crate::movegenerator::own_occupancy(v, color) & square_bit(t as int) == 0 && ((on(KNIGHT) && knight_jump(
        s as int,
        t as int,
    )) || ((on(ROOK) || on(QUEEN)) && straight_line(s as int, t as int) && line_clear(occupied, s as int, t as int))
        || ((on(BISHOP) || on(QUEEN)) && diagonal_line(s as int, t as int) && line_clear(
        occupied,
        s as int,
        t as int,
    )))
}

/// The knight and slider moves that count as attacks, part by part:
/// knights, bishops, rooks, the queens' diagonal and straight moves.
spec fn piece_part(v: BoardView, color: u8, sel: int) -> Seq<(u16, MoveType)> {
    if sel == 0 {
        crate::movegenerator::knight_moves_spec(v, color)
    } else {
        slider_part(v, color, sel - 1)
    }
}

/// A knight or slider move of `color` that ends on square `t` comes from a
/// piece that reaches `t`.
proof fn lemma_part_hit_has_attacker(v: BoardView, color: u8, sel: int, t: u64)
    requires
        is_color(color),
        0 <= sel < 5,
        t < 64,
    ensures
        forall|k: int|
            0 <= k < piece_part(v, color, sel).len() && crate::movegenerator::hits(
                #[trigger] piece_part(v, color, sel)[k],
                square_bit(t as int),
            ) ==> exists|s: u64| s < 64 && #[trigger] attacker_on(v, color, s, t),
{
    let b = square_bit(t as int);
    let own = crate::movegenerator::own_occupancy(v, color);
    let all = v.white | v.black;
    let p = |mv: (u16, MoveType)| crate::movegenerator::hits(mv, b) ==> exists|s: u64| s < 64 && #[trigger] attacker_on(v, color, s, t);
    let piece = if sel == 0 { KNIGHT } else if sel == 1 { BISHOP } else if sel == 2 { ROOK } else { QUEEN };
    let pieces = mask_of(v, piece, color);
    let g = if sel == 0 {
        crate::movegenerator::knight_from(v, color)
    } else if sel == 1 || sel == 3 {
        crate::movegenerator::bishop_from(v, color, piece)
    } else {
        crate::movegenerator::rook_from(v, color, piece)
    };
    assert(piece_part(v, color, sel) == expand(pieces, g));
    assert forall|i: u64, k: int| i < 64 && pieces & (1u64 << i) != 0 && 0 <= k < g(1u64 << i).len() implies p(
        #[trigger] g(1u64 << i)[k],
    ) by {
        let from = 1u64 << i;
        let targets = if sel == 0 {
            knight_targets(from, own)
        } else if sel == 1 || sel == 3 {
            crate::movegenerator::bishop_targets(from, own, all)
        } else {
            crate::movegenerator::rook_targets(from, own, all)
        };
        assert(g(from) == crate::movegenerator::target_moves(from, targets, piece, color));
        lemma_target_moves_hit(i, targets, piece, color, t);
        if crate::movegenerator::hits(g(from)[k], b) {
            assert(targets & b != 0);
            assert(square_bit(i as int) == from);
            if sel == 0 {
                lemma_knight_targets_exact(i, t, own);
            } else if sel == 1 || sel == 3 {
                lemma_bishop_targets_exact(i, t, own, all);
            } else {
                lemma_rook_targets_exact(i, t, own, all);
            }
            assert(attacker_on(v, color, i, t));
        }
    }
    lemma_expand_all_bits(pieces, g, p);
    assert forall|k: int|
        0 <= k < piece_part(v, color, sel).len() && crate::movegenerator::hits(
            #[trigger] piece_part(v, color, sel)[k],
            b,
        ) implies exists|s: u64| s < 64 && #[trigger] attacker_on(v, color, s, t) by {
        assert(p(expand(pieces, g)[k]));
    }
}

/// Every attack comes from somewhere: when `color` attacks square `t` and
/// neither one of its pawn moves nor one of its king steps ends there, a
/// knight, rook, bishop or queen of `color` reaches `t`.
pub proof fn lemma_attacked_has_attacker(v: BoardView, color: u8, t: u64)
    requires
        is_color(color),
        t < 64,
        crate::movegenerator::attacked(v, square_bit(t as int), color),
    ensures
        (exists|k: int|
            0 <= k < crate::movegenerator::pawn_moves_spec(v, color).len() && #[trigger] crate::movegenerator::hits(
                crate::movegenerator::pawn_moves_spec(v, color)[k],
                square_bit(t as int),
            )) || (crate::movegenerator::king_reach(mask_of(v, KING, color)) & !crate::movegenerator::own_occupancy(
            v,
            color,
        )) & square_bit(t as int) != 0 || exists|s: u64| s < 64 && #[trigger] attacker_on(v, color, s, t),
{
    let b = square_bit(t as int);
    let am = crate::movegenerator::attack_moves(v, color);
    let pa = crate::movegenerator::pawn_moves_spec(v, color);
    let p0 = piece_part(v, color, 0);
    let p1 = piece_part(v, color, 1);
    let p2 = piece_part(v, color, 2);
    let p3 = piece_part(v, color, 3);
    let p4 = piece_part(v, color, 4);
    assert(am == pa + p0 + p1 + p2 + (p3 + p4));
    if exists|i: int| 0 <= i < am.len() && #[trigger] crate::movegenerator::hits(am[i], b) {
        let i = choose|i: int| 0 <= i < am.len() && #[trigger] crate::movegenerator::hits(am[i], b);
        let o1 = pa.len() as int;
        let o2 = o1 + p0.len();
        let o3 = o2 + p1.len();
        let o4 = o3 + p2.len();
        let o5 = o4 + p3.len();
        if i < o1 {
            assert(am[i] == pa[i]);
            assert(crate::movegenerator::hits(pa[i], b));
        } else if i < o2 {
            lemma_part_hit_has_attacker(v, color, 0, t);
            assert(am[i] == p0[i - o1]);
        } else if i < o3 {
            lemma_part_hit_has_attacker(v, color, 1, t);
            assert(am[i] == p1[i - o2]);
        } else if i < o4 {
            lemma_part_hit_has_attacker(v, color, 2, t);
            assert(am[i] == p2[i - o3]);
        } else if i < o5 {
            lemma_part_hit_has_attacker(v, color, 3, t);
            assert(am[i] == p3[i - o4]);
        } else {
            lemma_part_hit_has_attacker(v, color, 4, t);
            assert(am[i] == p4[i - o5]);
        }
    }
}

/// Move `mv` of the history board goes from square `s`, a square of
/// `pieces`, to square `t`, which a piece of `kind` there reaches and no
/// piece of `own` holds.
spec fn good_move(p: PositionView, pieces: u64, own: u64, kind: u8, s: u64, t: u64, mv: (u64, u64)) -> bool {
    s < 64 && t < 64 && mv == (1u64 << s, 1u64 << t) && pieces & (1u64 << s) != 0 && piece_reaches(
        kind,
        p.white | p.black,
        s as int,
        t as int,
    ) && own & (1u64 << t) == 0
}

/// Move `mv` is a good move from some square of `pieces` to some square.
spec fn move_good(p: PositionView, pieces: u64, own: u64, kind: u8, mv: (u64, u64)) -> bool {
    exists|s: u64, t: u64| #[trigger] good_move(p, pieces, own, kind, s, t, mv)
}

/// Every move of a scan of targets satisfies `q` when the move to each of
/// its squares does.
proof fn lemma_scan_all(from: u64, targets: u64, n: int, q: spec_fn((u64, u64)) -> bool)
    requires
        n <= 64,
        forall|j: u64| j < 64 && targets & (1u64 << j) != 0 ==> #[trigger] q((from, 1u64 << j)),
    ensures
        forall|k: int| 0 <= k < scan_targets(from, targets, n).len() ==> q(#[trigger] scan_targets(from, targets, n)[k]),
    decreases n,
{
    if n > 0 {
        lemma_scan_all(from, targets, n - 1, q);
        let head = scan_targets(from, targets, n - 1);
        let all = scan_targets(from, targets, n);
        assert forall|k: int| 0 <= k < all.len() implies q(#[trigger] all[k]) by {
            if k < head.len() {
                assert(all[k] == head[k]);
            } else {
                let j = (n - 1) as u64;
                assert(all[k] == (from, 1u64 << j));
            }
        }
    }
}

/// Every knight move of the history board goes from a knight of the side
/// to a square a jump away that holds no own piece.
proof fn lemma_knight_moves_good(p: PositionView, color: i8)
    ensures
        forall|k: int|
            0 <= k < knight_moves(p, color).len() ==> move_good(
                p,
                kind_of(p, KNIGHT, color),
                crate::board_history::movegen::own_of(p, color),
                KNIGHT,
                #[trigger] knight_moves(p, color)[k],
            ),
{
    let pieces = kind_of(p, KNIGHT, color);
    let own = crate::board_history::movegen::own_of(p, color);
    let f = |sq: u64| scan_targets(1u64 << sq, crate::board_history::movegen::knight_targets(sq, own), 64);
    let q = |mv: (u64, u64)| move_good(p, pieces, own, KNIGHT, mv);
    assert forall|sq: u64, k: int| sq < 64 && pieces & (1u64 << sq) != 0 && 0 <= k < f(sq).len() implies q(
        #[trigger] f(sq)[k],
    ) by {
        let targets = crate::board_history::movegen::knight_targets(sq, own);
        assert forall|j: u64| j < 64 && targets & (1u64 << j) != 0 implies #[trigger] q((1u64 << sq, 1u64 << j)) by {
            lemma_history_knight_targets_exact(sq, j, own);
            assert(good_move(p, pieces, own, KNIGHT, sq, j, (1u64 << sq, 1u64 << j)));
        }
        lemma_scan_all(1u64 << sq, targets, 64, q);
    }
    lemma_over_squares_all(pieces, f, 64, q);
    assert(knight_moves(p, color) == over_squares(pieces, f, 64));
    assert forall|k: int| 0 <= k < knight_moves(p, color).len() implies move_good(
        p,
        pieces,
        own,
        KNIGHT,
        #[trigger] knight_moves(p, color)[k],
    ) by {
        assert(q(over_squares(pieces, f, 64)[k]));
    }
}

/// The rook moves (`rook_way`) or the bishop moves of the history board.
spec fn slider_moves(p: PositionView, color: i8, qm: Option<u64>, rook_way: bool) -> Seq<(u64, u64)> {
    if rook_way {
        rook_moves(p, color, qm)
    } else {
        bishop_moves(p, color, qm)
    }
}

/// Every bishop-like (or rook-like, `rook_way`) move of the history board
/// goes from a square of the pieces it moves to a square that a piece of
/// `kind` there reaches and that holds no own piece.
proof fn lemma_slider_moves_good(p: PositionView, color: i8, qm: Option<u64>, rook_way: bool, kind: u8)
    requires
        rook_way ==> kind == ROOK || kind == QUEEN,
        !rook_way ==> kind == BISHOP || kind == QUEEN,
    ensures
        forall|k: int|
            0 <= k < slider_moves(p, color, qm, rook_way).len() ==> move_good(
                p,
                slider_pieces(p, color, if rook_way { ROOK } else { BISHOP }, qm),
                crate::board_history::movegen::own_of(p, color),
                kind,
                #[trigger] slider_moves(p, color, qm, rook_way)[k],
            ),
{
    let pieces = slider_pieces(p, color, if rook_way { ROOK } else { BISHOP }, qm);
    let own = crate::board_history::movegen::own_of(p, color);
    let all = p.white | p.black;
    let q = |mv: (u64, u64)| move_good(p, pieces, own, kind, mv);
    let f = if rook_way {
        |sq: u64| moves_to(1u64 << sq, crate::board_history::movegen::rook_targets(sq, crate::board_history::movegen::own_of(p, color), p.white | p.black))
    } else {
        |sq: u64| moves_to(1u64 << sq, crate::board_history::movegen::bishop_targets(sq, crate::board_history::movegen::own_of(p, color), p.white | p.black))
    };
    assert forall|sq: u64, k: int| sq < 64 && pieces & (1u64 << sq) != 0 && 0 <= k < f(sq).len() implies q(
        #[trigger] f(sq)[k],
    ) by {
        let from = 1u64 << sq;
        let targets = if rook_way {
            crate::board_history::movegen::rook_targets(sq, own, all)
        } else {
            crate::board_history::movegen::bishop_targets(sq, own, all)
        };
        let g = |to: u64| seq![(from, to)];
        assert(f(sq) == expand(targets, g));
        assert forall|j: u64, i: int| j < 64 && targets & (1u64 << j) != 0 && 0 <= i < g(1u64 << j).len() implies q(
            #[trigger] g(1u64 << j)[i],
        ) by {
            lemma_history_slider_targets_exact(sq, j, own, all);
            assert(good_move(p, pieces, own, kind, sq, j, (from, 1u64 << j)));
        }
        lemma_expand_all_bits(targets, g, q);
        assert(q(expand(targets, g)[k]));
    }
    lemma_over_squares_all(pieces, f, 64, q);
    let ms = slider_moves(p, color, qm, rook_way);
    assert(ms == over_squares(pieces, f, 64));
    assert forall|k: int| 0 <= k < ms.len() implies move_good(p, pieces, own, kind, #[trigger] ms[k]) by {
        assert(q(over_squares(pieces, f, 64)[k]));
    }
}

/// Whether `to` is the mask of a square that a piece of `kind` of side
/// `color` on square `s` reaches and that holds no piece of that side.
pub open spec fn reached_by(p: PositionView, kind: u8, color: i8, s: int, to: u64) -> bool {
    exists|t: u64|
        t < 64 && to == 1u64 << t && #[trigger] piece_reaches(kind, p.white | p.black, s, t as int) && (if color
            == crate::board_history::board::WHITE {
            p.white
        } else {
            p.black
        }) & (1u64 << t) == 0
}

/// A request for the moves of a named knight, bishop, rook or queen
/// answers only moves from the clicked square (x, y) to squares that piece
/// reaches and that hold no piece of its side.
pub proof fn lemma_requested_moves_sound(p: PositionView, x: u8, y: u8, name: Seq<char>)
    requires
        named_piece(name) is Some,
        named_piece(name).unwrap().0 == KNIGHT || named_piece(name).unwrap().0 == BISHOP || named_piece(
            name,
        ).unwrap().0 == ROOK || named_piece(name).unwrap().0 == QUEEN,
        x < 8,
        y < 8,
    ensures
        forall|k: int|
            0 <= k < requested_moves_spec(p, x, y, name).len() ==> (#[trigger] requested_moves_spec(p, x, y, name)[k]).0
                == square_mask(x as int, y as int) && reached_by(
                p,
                named_piece(name).unwrap().0,
                named_piece(name).unwrap().1,
                x + 8 * y,
                requested_moves_spec(p, x, y, name)[k].1,
            ),
{
    let kind = named_piece(name).unwrap().0;
    let color = named_piece(name).unwrap().1;
    let own = crate::board_history::movegen::own_of(p, color);
    let all = moves_for_piece(p, name).unwrap();
    assert(moves_for_piece(p, name) is Some);
    let qm = if kind == QUEEN { Some(board_of(p, QUEEN, color)) } else { None::<u64> };
    let pieces = if kind == KNIGHT {
        kind_of(p, KNIGHT, color)
    } else if kind == QUEEN {
        board_of(p, QUEEN, color)
    } else {
        slider_pieces(p, color, kind, None)
    };
    assert forall|j: int| 0 <= j < all.len() implies move_good(p, pieces, own, kind, #[trigger] all[j]) by {
        if kind == KNIGHT {
            lemma_knight_moves_good(p, color);
            assert(all[j] == knight_moves(p, color)[j]);
        } else if kind == BISHOP {
            lemma_slider_moves_good(p, color, None, false, BISHOP);
            assert(all[j] == slider_moves(p, color, None, false)[j]);
        } else if kind == ROOK {
            lemma_slider_moves_good(p, color, None, true, ROOK);
            assert(all[j] == slider_moves(p, color, None, true)[j]);
        } else {
            lemma_slider_moves_good(p, color, qm, false, QUEEN);
            lemma_slider_moves_good(p, color, qm, true, QUEEN);
            let bm = slider_moves(p, color, qm, false);
            let rm = slider_moves(p, color, qm, true);
            assert(all == bm + rm);
            if j < bm.len() {
                assert(all[j] == bm[j]);
            } else {
                assert(all[j] == rm[j - bm.len()]);
            }
        }
    }
    let r = requested_moves_spec(p, x, y, name);
    assert(r == all.filter(leaves_fn(x, y)));
    assert forall|k: int| 0 <= k < r.len() implies (#[trigger] r[k]).0 == square_mask(x as int, y as int)
        && reached_by(p, kind, color, x + 8 * y, r[k].1) by {
        all.lemma_filter_pred(leaves_fn(x, y), k);
        assert(r.contains(r[k]));
        all.lemma_filter_contains_rev(leaves_fn(x, y), r[k]);
        let j = choose|j: int| 0 <= j < all.len() && all[j] == r[k];
        assert(move_good(p, pieces, own, kind, all[j]));
        let (sq, t) = choose|sq: u64, t: u64| #[trigger] good_move(p, pieces, own, kind, sq, t, all[j]);
        crate::bits::lemma_low_index_single(sq);
        assert(sq == x + 8 * y);
        assert(piece_reaches(kind, p.white | p.black, x + 8 * y, t as int));
    }
}

} // verus!
