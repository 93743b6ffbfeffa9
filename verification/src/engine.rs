//! Position evaluation and the alpha-beta search engine.
use vstd::prelude::*;

verus! {

use std::time::{Duration, Instant};
use crate::bits::lemma_pop_count_u64;
use crate::chess_move::{Move, MoveType, move_of, lemma_move_of};
use crate::chessboard::{Chessboard, BoardView, mask_of};
use crate::constants::{PAWN, KNIGHT, BISHOP, ROOK, QUEEN, KING, WHITE, BLACK, is_color, opponent};
use crate::heuristics::{HeuristicParams, Heuristics, heuristics_of, pc, lemma_heuristic_bounds};
use crate::movegenerator::{
    generate_moves,
    legal_moves,
    views,
    playable,
    all_playable,
    pseudo_moves,
    legality,
    en_passant_in_range,
    lemma_pseudo_moves_playable,
};
use crate::zobrist::{ZobristTable, ZobristView, table_ok, hash_spec, keys_for};
use crate::movegenerator::after_move;

/// The material value of a piece type.
pub open spec fn piece_value(piece: u8) -> int {
    if piece == PAWN {
        10
    } else if piece == KNIGHT {
        30
    } else if piece == BISHOP {
        35
    } else if piece == ROOK {
        50
    } else if piece == QUEEN {
        90
    } else if piece == KING {
        9999
    } else {
        0
    }
}

/// The material balance of one piece type from the side of `for_color`.
pub open spec fn material_term(v: BoardView, for_color: u8, piece: u8) -> int {
    if for_color == WHITE {
        pc(mask_of(v, piece, WHITE)) * piece_value(piece) - pc(mask_of(v, piece, BLACK)) * piece_value(piece)
    } else {
        -(pc(mask_of(v, piece, WHITE)) * piece_value(piece)) + pc(mask_of(v, piece, BLACK)) * piece_value(piece)
    }
}

/// The material balance of the piece types below `bound`.
pub open spec fn material_below(v: BoardView, for_color: u8, bound: u8) -> int
    decreases bound,
{
    if bound <= PAWN {
        0
    } else {
        material_below(v, for_color, (bound - 1) as u8) + material_term(v, for_color, (bound - 1) as u8)
    }
}

/// The material balance from the side of `for_color`: the value of its
/// pieces less the value of the other side's (any color other than white
/// counts as black).
pub open spec fn material_spec(v: BoardView, for_color: u8) -> int {
    material_below(v, for_color, 7)
}

proof fn lemma_material_below_bound(v: BoardView, for_color: u8, bound: u8)
    requires
        bound <= 7,
    ensures
        -(bound as int) * 64 * 9999 <= material_below(v, for_color, bound) <= (bound as int) * 64 * 9999,
    decreases bound,
{
    if bound > PAWN {
        lemma_material_below_bound(v, for_color, (bound - 1) as u8);
        let p = (bound - 1) as u8;
        lemma_pop_count_u64(mask_of(v, p, WHITE));
        lemma_pop_count_u64(mask_of(v, p, BLACK));
        let w = pc(mask_of(v, p, WHITE));
        let b = pc(mask_of(v, p, BLACK));
        let val = piece_value(p);
        assert(0 <= w * val <= 64 * 9999) by (nonlinear_arith)
            requires
                0 <= w <= 64,
                0 <= val <= 9999,
        ;
        assert(0 <= b * val <= 64 * 9999) by (nonlinear_arith)
            requires
                0 <= b <= 64,
                0 <= val <= 9999,
        ;
    }
}

/// The starting position's material is balanced: 0 from either side.
pub proof fn lemma_start_material_zero(for_color: u8)
    ensures
        material_spec(crate::chessboard::starting_view(), for_color) == 0,
{
    let v = crate::chessboard::starting_view();
    vstd::arithmetic::power2::lemma2_to64();
    vstd::arithmetic::power2::lemma2_to64_rest();
    crate::bits::lemma_pop_count_scaled(0x0000_0000_0000_FF00nat, 40);
    crate::bits::lemma_pop_count_scaled(0x42nat, 56);
    crate::bits::lemma_pop_count_scaled(0x24nat, 56);
    crate::bits::lemma_pop_count_scaled(0x81nat, 56);
    crate::bits::lemma_pop_count_scaled(0x10nat, 56);
    crate::bits::lemma_pop_count_scaled(0x08nat, 56);
    let p2 = vstd::arithmetic::power2::pow2(40);
    let p7 = vstd::arithmetic::power2::pow2(56);
    assert(mask_of(v, PAWN, BLACK) as nat == 0x0000_0000_0000_FF00nat * p2);
    assert(mask_of(v, KNIGHT, BLACK) as nat == 0x42nat * p7);
    assert(mask_of(v, BISHOP, BLACK) as nat == 0x24nat * p7);
    assert(mask_of(v, ROOK, BLACK) as nat == 0x81nat * p7);
    assert(mask_of(v, QUEEN, BLACK) as nat == 0x10nat * p7);
    assert(mask_of(v, KING, BLACK) as nat == 0x08nat * p7);
    assert(pc(mask_of(v, PAWN, WHITE)) == pc(mask_of(v, PAWN, BLACK)));
    assert(pc(mask_of(v, KNIGHT, WHITE)) == pc(mask_of(v, KNIGHT, BLACK)));
    assert(pc(mask_of(v, BISHOP, WHITE)) == pc(mask_of(v, BISHOP, BLACK)));
    assert(pc(mask_of(v, ROOK, WHITE)) == pc(mask_of(v, ROOK, BLACK)));
    assert(pc(mask_of(v, QUEEN, WHITE)) == pc(mask_of(v, QUEEN, BLACK)));
    assert(pc(mask_of(v, KING, WHITE)) == pc(mask_of(v, KING, BLACK)));
    assert(material_below(v, for_color, 1) == 0);
    assert(material_below(v, for_color, 2) == 0);
    assert(material_below(v, for_color, 3) == 0);
    assert(material_below(v, for_color, 4) == 0);
    assert(material_below(v, for_color, 5) == 0);
    assert(material_below(v, for_color, 6) == 0);
}

/// The material balance written out: pawn 10, knight 30, bishop 35, rook
/// 50, queen 90 and king 9999 times the number of such pieces of the side
/// less those of the other side (white against black, or black against
/// white for any other color).
pub proof fn lemma_material_expanded(v: BoardView, for_color: u8)
    ensures
        material_spec(v, for_color) == (if for_color == WHITE {
            1int
        } else {
            -1int
        }) * (10 * (pc(mask_of(v, PAWN, WHITE)) - pc(mask_of(v, PAWN, BLACK))) + 30 * (pc(
            mask_of(v, KNIGHT, WHITE),
        ) - pc(mask_of(v, KNIGHT, BLACK))) + 35 * (pc(mask_of(v, BISHOP, WHITE)) - pc(
            mask_of(v, BISHOP, BLACK),
        )) + 50 * (pc(mask_of(v, ROOK, WHITE)) - pc(mask_of(v, ROOK, BLACK))) + 90 * (pc(
            mask_of(v, QUEEN, WHITE),
        ) - pc(mask_of(v, QUEEN, BLACK))) + 9999 * (pc(mask_of(v, KING, WHITE)) - pc(
            mask_of(v, KING, BLACK),
        ))),
{
    assert(material_below(v, for_color, 1) == 0);
    assert(material_below(v, for_color, 7) == material_below(v, for_color, 6) + material_term(
        v,
        for_color,
        6,
    ));
    assert(material_below(v, for_color, 6) == material_below(v, for_color, 5) + material_term(
        v,
        for_color,
        5,
    ));
    assert(material_below(v, for_color, 5) == material_below(v, for_color, 4) + material_term(
        v,
        for_color,
        4,
    ));
    assert(material_below(v, for_color, 4) == material_below(v, for_color, 3) + material_term(
        v,
        for_color,
        3,
    ));
    assert(material_below(v, for_color, 3) == material_below(v, for_color, 2) + material_term(
        v,
        for_color,
        2,
    ));
    assert(material_below(v, for_color, 2) == material_below(v, for_color, 1) + material_term(
        v,
        for_color,
        1,
    ));
    let a = pc(mask_of(v, PAWN, WHITE)) - pc(mask_of(v, PAWN, BLACK));
    let b = pc(mask_of(v, KNIGHT, WHITE)) - pc(mask_of(v, KNIGHT, BLACK));
    let c = pc(mask_of(v, BISHOP, WHITE)) - pc(mask_of(v, BISHOP, BLACK));
    let d = pc(mask_of(v, ROOK, WHITE)) - pc(mask_of(v, ROOK, BLACK));
    let e = pc(mask_of(v, QUEEN, WHITE)) - pc(mask_of(v, QUEEN, BLACK));
    let f = pc(mask_of(v, KING, WHITE)) - pc(mask_of(v, KING, BLACK));
    assert(material_term(v, for_color, PAWN) == (if for_color == WHITE { 10 * a } else { -(10 * a) }));
    assert(material_term(v, for_color, KNIGHT) == (if for_color == WHITE { 30 * b } else { -(30 * b) }));
    assert(material_term(v, for_color, BISHOP) == (if for_color == WHITE { 35 * c } else { -(35 * c) }));
    assert(material_term(v, for_color, ROOK) == (if for_color == WHITE { 50 * d } else { -(50 * d) }));
    assert(material_term(v, for_color, QUEEN) == (if for_color == WHITE { 90 * e } else { -(90 * e) }));
    assert(material_term(v, for_color, KING) == (if for_color == WHITE { 9999 * f } else { -(9999 * f) }));
    let sum = 10 * a + 30 * b + 35 * c + 50 * d + 90 * e + 9999 * f;
    if for_color == WHITE {
        assert(material_spec(v, for_color) == sum);
        assert(1int * sum == sum);
    } else {
        assert(material_spec(v, for_color) == -sum);
        assert(-1int * sum == -sum);
    }
}

/// The material balance is the same number from either side, negated.
pub proof fn lemma_material_antisymmetric(v: BoardView)
    ensures
        material_spec(v, WHITE) == -material_spec(v, BLACK),
{
    lemma_material_antisymmetric_below(v, 7);
}

proof fn lemma_material_antisymmetric_below(v: BoardView, bound: u8)
    ensures
        material_below(v, WHITE, bound) == -material_below(v, BLACK, bound),
    decreases bound,
{
    if bound > PAWN {
        lemma_material_antisymmetric_below(v, (bound - 1) as u8);
    }
}

/// Material balance from the side of `for_color`: pawn 10, knight 30,
/// bishop 35, rook 50, queen 90, king 9999 for each piece of the side, less
/// the same for the other side.
pub fn material(position: &Chessboard, for_color: u8) -> (r: i32)
    ensures
        r == material_spec(position@, for_color),
{
    let ghost v = position@;
    let mut score: i32 = 0;
    let mut piece: u8 = 1;
    while piece <= 6
        invariant
            1 <= piece <= 7,
            v == position@,
            score == material_below(v, for_color, piece),
        decreases 7 - piece,
    {
        proof {
            lemma_material_below_bound(v, for_color, piece);
            lemma_pop_count_u64(mask_of(v, piece, WHITE));
            lemma_pop_count_u64(mask_of(v, piece, BLACK));
        }
        let piece_value: i32 = if piece == PAWN {
            10
        } else if piece == KNIGHT {
            30
        } else if piece == BISHOP {
            35
        } else if piece == ROOK {
            50
        } else if piece == QUEEN {
            90
        } else if piece == KING {
            9999
        } else {
            0
        };
        let w = position.get_piece_mask(piece, WHITE).count_ones() as i32;
        let b = position.get_piece_mask(piece, BLACK).count_ones() as i32;
        assert(0 <= w * piece_value <= 64 * 9999) by (nonlinear_arith)
            requires
                0 <= w <= 64,
                0 <= piece_value <= 9999,
        ;
        assert(0 <= b * piece_value <= 64 * 9999) by (nonlinear_arith)
            requires
                0 <= b <= 64,
                0 <= piece_value <= 9999,
        ;
        if for_color == WHITE {
            score = score + w * piece_value;
            score = score - b * piece_value;
        } else {
            score = score - w * piece_value;
            score = score + b * piece_value;
        }
        piece = piece + 1;
    }
    score
}

/// Whether an integer fits in an `i32`.
pub open spec fn fits_i32(x: int) -> bool {
    i32::MIN <= x <= i32::MAX
}

/// The weighted heuristic terms of a position for `color`, in the order the
/// evaluation adds them: two middle pawns, castling, knight outposts,
/// development, mobility.
pub open spec fn heuristic_terms(v: BoardView, color: u8, h: HeuristicParams) -> Seq<int> {
    let e = heuristics_of(v, color);
    seq![
        e.two_middle_pawns_spec() * h.two_middle_pawns_weight,
        e.castling_spec() * h.castling_weight,
        e.knight_outpost_spec() * h.knight_outpost_weight,
        e.development_spec() * h.development_weight,
        e.mobility_spec() * h.mobility_weight,
    ]
}

/// The sum of the first `n` terms.
pub open spec fn sum_first(terms: Seq<int>, n: int) -> int
    decreases n,
{
    if n <= 0 {
        0
    } else {
        sum_first(terms, n - 1) + terms[n - 1]
    }
}

/// The weighted heuristic score of a position for `color`.
pub open spec fn heuristics_score(v: BoardView, color: u8, h: HeuristicParams) -> int {
    sum_first(heuristic_terms(v, color, h), 5)
}

/// The weighted heuristics are linear in the weights: weights `k` times
/// those of `h` give `k` times the score of `h`; in particular all-zero
/// weights (`k` = 0) score 0.
pub proof fn lemma_heuristics_scale(v: BoardView, color: u8, h: HeuristicParams, h2: HeuristicParams, k: int)
    requires
        h2.two_middle_pawns_weight == k * h.two_middle_pawns_weight,
        h2.castling_weight == k * h.castling_weight,
        h2.development_weight == k * h.development_weight,
        h2.mobility_weight == k * h.mobility_weight,
        h2.knight_outpost_weight == k * h.knight_outpost_weight,
    ensures
        heuristics_score(v, color, h2) == k * heuristics_score(v, color, h),
{
    let e = heuristics_of(v, color);
    let t = heuristic_terms(v, color, h);
    let t2 = heuristic_terms(v, color, h2);
    let a = e.two_middle_pawns_spec();
    let b = e.castling_spec();
    let c = e.knight_outpost_spec();
    let d = e.development_spec();
    let w1 = h.two_middle_pawns_weight as int;
    let w2 = h.castling_weight as int;
    let w3 = h.knight_outpost_weight as int;
    let w4 = h.development_weight as int;
    assert(a * (k * w1) == k * (a * w1)) by (nonlinear_arith);
    assert(b * (k * w2) == k * (b * w2)) by (nonlinear_arith);
    assert(c * (k * w3) == k * (c * w3)) by (nonlinear_arith);
    assert(d * (k * w4) == k * (d * w4)) by (nonlinear_arith);
    let m = e.mobility_spec();
    let w5 = h.mobility_weight as int;
    assert(m * (k * w5) == k * (m * w5)) by (nonlinear_arith);
    assert(k * (a * w1) + k * (b * w2) + k * (c * w3) + k * (d * w4) + k * (m * w5) == k * (a * w1 + b * w2
        + c * w3 + d * w4 + m * w5)) by (nonlinear_arith);
    assert(sum_first(t, 5) == t[0] + t[1] + t[2] + t[3] + t[4]) by {
        assert(sum_first(t, 0) == 0);
        assert(sum_first(t, 1) == t[0]);
        assert(sum_first(t, 2) == sum_first(t, 1) + t[1]);
        assert(sum_first(t, 3) == sum_first(t, 2) + t[2]);
        assert(sum_first(t, 4) == sum_first(t, 3) + t[3]);
    }
    assert(sum_first(t2, 5) == t2[0] + t2[1] + t2[2] + t2[3] + t2[4]) by {
        assert(sum_first(t2, 0) == 0);
        assert(sum_first(t2, 1) == t2[0]);
        assert(sum_first(t2, 2) == sum_first(t2, 1) + t2[1]);
        assert(sum_first(t2, 3) == sum_first(t2, 2) + t2[2]);
        assert(sum_first(t2, 4) == sum_first(t2, 3) + t2[3]);
    }
}

/// Every term and every partial sum of the weighted heuristics fits in an
/// `i32` (the evaluation overflows otherwise).
pub open spec fn heuristics_fit(v: BoardView, color: u8, h: HeuristicParams) -> bool {
    forall|n: int| 1 <= n <= 5 ==> fits_i32(#[trigger] heuristic_terms(v, color, h)[n - 1]) && fits_i32(
        sum_first(heuristic_terms(v, color, h), n),
    )
}

/// The weighted sum of the heuristics of `position` for `color`.
pub fn evaluate_heuristics(position: &Chessboard, color: u8, h: &HeuristicParams) -> (r: i32)
    requires
        is_color(color),
        en_passant_in_range(position@, color),
        heuristics_fit(position@, color, *h),
    ensures
        r == heuristics_score(position@, color, *h),
{
    let ghost t = heuristic_terms(position@, color, *h);
    let mut score: i32 = 0;
    let heuristics_eval = Heuristics::new(position, color);
    proof {
        crate::heuristics::lemma_mobility_bounded(position@, color);
    }
    assert(sum_first(t, 0) == 0);
    assert(sum_first(t, 1) == t[0]);
    assert(sum_first(t, 2) == sum_first(t, 1) + t[1]);
    assert(sum_first(t, 3) == sum_first(t, 2) + t[2]);
    assert(sum_first(t, 4) == sum_first(t, 3) + t[3]);
    assert(sum_first(t, 5) == sum_first(t, 4) + t[4]);
    assert(fits_i32(t[0]) && fits_i32(sum_first(t, 1)));
    assert(fits_i32(t[1]) && fits_i32(sum_first(t, 2)));
    assert(fits_i32(t[2]) && fits_i32(sum_first(t, 3)));
    assert(fits_i32(t[3]) && fits_i32(sum_first(t, 4)));
    assert(fits_i32(t[4]) && fits_i32(sum_first(t, 5)));
    score = score + heuristics_eval.two_middle_pawns() * h.two_middle_pawns_weight;
    score = score + heuristics_eval.castling() * h.castling_weight;
    score = score + heuristics_eval.knight_outpost() * h.knight_outpost_weight;
    score = score + heuristics_eval.development() * h.development_weight;
    score = score + heuristics_eval.mobility() * h.mobility_weight;
    score
}

/// The evaluation of a position from the side of `color`: material plus
/// weighted heuristics.
pub open spec fn evaluation(v: BoardView, color: u8, h: HeuristicParams) -> int {
    material_spec(v, color) + heuristics_score(v, color, h)
}

/// Material balance plus weighted heuristics, from the side of `color`.
pub fn evaluate(position: &Chessboard, color: u8, params: &HeuristicParams) -> (r: i32)
    requires
        is_color(color),
        en_passant_in_range(position@, color),
        heuristics_fit(position@, color, *params),
        fits_i32(evaluation(position@, color, *params)),
    ensures
        r == evaluation(position@, color, *params),
{
    let mut score: i32 = 0;
    score = score + material(position, color);
    score = score + evaluate_heuristics(position, color, params);
    score
}


/// Weights small enough that no evaluation can overflow: each at most a
/// million in absolute value, the mobility weight at most ten thousand (a
/// side may have up to `MAX_MOVES` moves). This is a limit of the library's
/// engine, chosen to rule out `i32` overflow: with it every evaluation, and
/// so every score the search compares, stays within `EVAL_BOUND`; the
/// default weights and those the tuner draws (1..50) lie far inside it.
pub open spec fn params_bounded(h: HeuristicParams) -> bool {
    &&& -1_000_000 <= h.two_middle_pawns_weight <= 1_000_000
    &&& -1_000_000 <= h.castling_weight <= 1_000_000
    &&& -1_000_000 <= h.development_weight <= 1_000_000
    &&& -10_000 <= h.mobility_weight <= 10_000
    &&& -1_000_000 <= h.knight_outpost_weight <= 1_000_000
}

/// A bound on the absolute value of every evaluation with bounded weights.
pub const EVAL_BOUND: i32 = 1_000_000_000;

/// With bounded weights the evaluation of any position neither overflows
/// nor leaves `[-EVAL_BOUND, EVAL_BOUND]`.
#[verifier::rlimit(100)]
pub proof fn lemma_evaluation_bounded(v: BoardView, color: u8, h: HeuristicParams)
    requires
        params_bounded(h),
    ensures
        heuristics_fit(v, color, h),
        -EVAL_BOUND <= evaluation(v, color, h) <= EVAL_BOUND,
{
    let e = heuristics_of(v, color);
    lemma_heuristic_bounds(e);
    lemma_material_below_bound(v, color, 7);
    let t = heuristic_terms(v, color, h);
    let a = e.two_middle_pawns_spec();
    let b = e.castling_spec();
    let c = e.knight_outpost_spec();
    let d = e.development_spec();
    let m = e.mobility_spec();
    crate::heuristics::lemma_mobility_bounded(v, color);
    assert(-300_000_000 <= m * h.mobility_weight <= 300_000_000) by (nonlinear_arith)
        requires
            0 <= m <= 30000,
            -10_000 <= h.mobility_weight <= 10_000,
    ;
    assert(-64_000_000 <= a * h.two_middle_pawns_weight <= 64_000_000) by (nonlinear_arith)
        requires
            0 <= a <= 64,
            -1_000_000 <= h.two_middle_pawns_weight <= 1_000_000,
    ;
    assert(-2_000_000 <= b * h.castling_weight <= 2_000_000) by (nonlinear_arith)
        requires
            0 <= b <= 2,
            -1_000_000 <= h.castling_weight <= 1_000_000,
    ;
    assert(-128_000_000 <= c * h.knight_outpost_weight <= 128_000_000) by (nonlinear_arith)
        requires
            -128 <= c <= 128,
            -1_000_000 <= h.knight_outpost_weight <= 1_000_000,
    ;
    assert(-256_000_000 <= d * h.development_weight <= 256_000_000) by (nonlinear_arith)
        requires
            0 <= d <= 256,
            -1_000_000 <= h.development_weight <= 1_000_000,
    ;
    assert(sum_first(t, 0) == 0);
    assert(sum_first(t, 1) == t[0]);
    assert(sum_first(t, 2) == sum_first(t, 1) + t[1]);
    assert(sum_first(t, 3) == sum_first(t, 2) + t[2]);
    assert(sum_first(t, 4) == sum_first(t, 3) + t[3]);
    assert(sum_first(t, 5) == sum_first(t, 4) + t[4]);
    assert(t[4] == m * h.mobility_weight);
    assert(-64_000_000 <= t[0] <= 64_000_000);
    assert(-2_000_000 <= t[1] <= 2_000_000);
    assert(-128_000_000 <= t[2] <= 128_000_000);
    assert(-256_000_000 <= t[3] <= 256_000_000);
}

#[verifier::external_type_specification]
#[verifier::external_body]
pub struct ExInstant(Instant);

/// std's `Instant::now`: the current time; nothing is stated of it.
#[verifier::external_body]
pub(crate) fn now() -> Instant {
    Instant::now()
}

/// std's `Instant::elapsed`: the time passed since `start`; nothing is
/// stated of it.
#[verifier::external_body]
pub(crate) fn elapsed(start: &Instant) -> Duration {
    start.elapsed()
}

/// std's `Duration::as_millis`: the whole milliseconds of `d`; nothing is
/// stated of it, as a `Duration` is opaque here.
#[verifier::external_body]
pub(crate) fn as_millis(d: &Duration) -> u128 {
    d.as_millis()
}

pub const MIN_SCORE: i32 = -100_000;
pub const MAX_SCORE: i32 = 100_000;
/// Milliseconds after which a search gives up.
pub const TIME_CUTOFF: u64 = 20000;

/// How a stored score relates to the true score of its position.
#[derive(Clone, Copy, Debug)]
pub enum BoundType {
    Exact,
    LowerBound,
    UpperBound,
}

/// A transposition table entry.
#[derive(Clone, Copy, Debug)]
pub struct Entry {
    pub hash: u64,
    pub depth: u32,
    pub score: i32,
    pub best_move: Option<Move>,
    pub bound_type: BoundType,
}

/// The score of a searched position and the move that reached it.
#[derive(Clone, Copy)]
pub struct SearchResult {
    pub score: i32,
    pub best_move: Option<Move>,
}

/// Whether a score lies within the evaluation bound.
pub open spec fn score_ok(score: i32) -> bool {
    -EVAL_BOUND <= score <= EVAL_BOUND
}

/// The slot of `hash` in a table of `len` slots.
pub open spec fn table_index(len: nat, hash: u64) -> int {
    ((hash as usize) as int) % (len as int)
}

/// What a lookup of `hash` finds: the entry in its slot when that entry was
/// stored for the same hash, nothing otherwise.
pub open spec fn entry_for(entries: Seq<Option<Entry>>, hash: u64) -> Option<Entry> {
    match entries[table_index(entries.len(), hash)] {
        Some(e) => if e.hash == hash {
            Some(e)
        } else {
            None
        },
        None => None,
    }
}

/// Whether storing `entry` replaces what its slot holds: the slot is empty
/// or holds a shallower search.
pub open spec fn replaces(entries: Seq<Option<Entry>>, entry: Entry) -> bool {
    match entries[table_index(entries.len(), entry.hash)] {
        Some(existing) => entry.depth > existing.depth,
        None => true,
    }
}

/// The slots after storing `entry`.
pub open spec fn stored(entries: Seq<Option<Entry>>, entry: Entry) -> Seq<Option<Entry>> {
    if replaces(entries, entry) {
        entries.update(table_index(entries.len(), entry.hash), Some(entry))
    } else {
        entries
    }
}

/// A lookup right after a store that replaced its slot finds the stored
/// entry; the store changes no lookup of a hash in another slot.
pub proof fn lemma_read_after_write(entries: Seq<Option<Entry>>, entry: Entry, other: u64)
    requires
        entries.len() > 0,
    ensures
        replaces(entries, entry) ==> entry_for(stored(entries, entry), entry.hash) == Some(entry),
        table_index(entries.len(), other) != table_index(entries.len(), entry.hash) ==> entry_for(
            stored(entries, entry),
            other,
        ) == entry_for(entries, other),
{
    let len = entries.len();
    assert(0 <= table_index(len, entry.hash) < len);
    assert(0 <= table_index(len, other) < len);
}

/// A table of `n` empty slots.
pub open spec fn empty_table(n: nat) -> Seq<Option<Entry>> {
    Seq::new(n, |i: int| None::<Entry>)
}

/// The number of slots of a table of `size_mb` megabytes: as many entries
/// as fit, at least one.
pub open spec fn table_slots(size_mb: usize) -> nat {
    let entry_size = if vstd::layout::size_of::<Option<Entry>>() == 0 {
        1
    } else {
        vstd::layout::size_of::<Option<Entry>>()
    };
    let quotient = (size_mb * 1024 * 1024) as nat / entry_size;
    if quotient < 1 {
        1
    } else {
        quotient
    }
}

/// A fixed-size table of search results indexed by position hash.
pub struct TranspositionTable {
    entries: Vec<Option<Entry>>,
    size: usize,
}

impl View for TranspositionTable {
    type V = Seq<Option<Entry>>;

    closed spec fn view(&self) -> Seq<Option<Entry>> {
        self.entries@
    }
}

impl TranspositionTable {
    /// At least one slot, the size recorded, and every stored score within
    /// the evaluation bound.
    pub closed spec fn wf(&self) -> bool {
        &&& self.size > 0
        &&& self.entries@.len() == self.size
        &&& forall|i: int| 0 <= i < self.entries@.len() ==> (#[trigger] self.entries@[i] matches Some(e)
            ==> score_ok(e.score))
    }

    /// A table filling `size_mb` megabytes (at least one entry), all empty.
    pub fn new(size_mb: usize) -> (r: TranspositionTable)
        requires
            size_mb * 1024 * 1024 <= usize::MAX,
        ensures
            r.wf(),
            r@.len() > 0,
            forall|i: int| 0 <= i < r@.len() ==> #[trigger] r@[i] is None,
            r@ == empty_table(table_slots(size_mb)),
    {
        let raw_entry_size = core::mem::size_of::<Option<Entry>>();
        let entry_size = if raw_entry_size == 0 {
            1
        } else {
            raw_entry_size
        };
        let quotient = (size_mb * 1024 * 1024) / entry_size;
        let num_entries = if quotient < 1 {
            1
        } else {
            quotient
        };
        let entries: Vec<Option<Entry>> = vec![None; num_entries];
        let r = TranspositionTable { entries, size: num_entries };
        assert forall|i: int| 0 <= i < r.entries@.len() implies #[trigger] r.entries@[i] is None by {
            assert(vstd::pervasive::cloned::<Option<Entry>>(None, r.entries@[i]));
        }
        assert(r.entries@ =~= empty_table(table_slots(size_mb)));
        r
    }

    /// The stored entry for `hash`, if its slot holds that hash.
    pub fn get(&self, hash: u64) -> (r: Option<Entry>)
        requires
            self.wf(),
        ensures
            r == entry_for(self@, hash),
            r matches Some(e) ==> score_ok(e.score),
    {
        let idx = (hash as usize) % self.size;
        match self.entries[idx] {
            Some(e) => if e.hash == hash {
                Some(e)
            } else {
                None
            },
            None => None,
        }
    }

    /// Stores `entry` in its slot when the slot is empty or holds a
    /// shallower search.
    pub fn insert(&mut self, entry: Entry)
        requires
            old(self).wf(),
            score_ok(entry.score),
        ensures
            final(self).wf(),
            final(self)@ == stored(old(self)@, entry),
    {
        let idx = (entry.hash as usize) % self.size;
        let replace = match self.entries[idx] {
            Some(existing_entry) => entry.depth > existing_entry.depth,
            None => true,
        };
        if replace {
            self.entries.set(idx, Some(entry));
        }
    }
}

/// The first score recorded for `mv` in a killer-move list.
pub open spec fn killer_get(killers: Seq<(Move, i32)>, mv: Move) -> Option<i32>
    decreases killers.len(),
{
    if killers.len() == 0 {
        None
    } else if killers[0].0 == mv {
        Some(killers[0].1)
    } else {
        killer_get(killers.drop_first(), mv)
    }
}

/// A well-formed killer-move list: every score lies within the evaluation
/// bound, and no move has two entries.
pub open spec fn killers_ok(killers: Seq<(Move, i32)>) -> bool {
    &&& forall|i: int| 0 <= i < killers.len() ==> score_ok(#[trigger] killers[i].1)
    &&& forall|i: int, j: int|
        0 <= i < j < killers.len() ==> (#[trigger] killers[i]).0 != (#[trigger] killers[j]).0
}

/// The ordering key of a move: the negated killer score (so higher killer
/// scores come first), 0 for a move with none.
pub open spec fn order_key(killers: Seq<(Move, i32)>, mv: Move) -> int {
    match killer_get(killers, mv) {
        Some(score) => -score,
        None => 0,
    }
}

proof fn lemma_killer_get_ok(killers: Seq<(Move, i32)>, mv: Move)
    requires
        killers_ok(killers),
    ensures
        killer_get(killers, mv) matches Some(s) ==> score_ok(s),
    decreases killers.len(),
{
    if killers.len() > 0 && killers[0].0 != mv {
        assert(killers_ok(killers.drop_first())) by {
            assert forall|i: int| 0 <= i < killers.drop_first().len() implies score_ok(
                #[trigger] killers.drop_first()[i].1,
            ) by {
                assert(killers.drop_first()[i] == killers[i + 1]);
            }
        }
        lemma_killer_get_ok(killers.drop_first(), mv);
    }
}

/// The killer score of `mv`, if any.
fn killer_lookup(killers: &Vec<(Move, i32)>, mv: &Move) -> (r: Option<i32>)
    ensures
        r == killer_get(killers@, *mv),
{
    let mut i: usize = 0;
    assert(killers@.skip(0) =~= killers@);
    while i < killers.len()
        invariant
            i <= killers.len(),
            killer_get(killers@.skip(i as int), *mv) == killer_get(killers@, *mv),
        decreases killers.len() - i,
    {
        let entry = killers[i];
        assert(killers@.skip(i as int).drop_first() =~= killers@.skip(i + 1));
        if entry.0 == *mv {
            return Some(entry.1);
        }
        i = i + 1;
    }
    None
}

/// The killer list after recording `score` for `mv`: the first entry of
/// `mv` is overwritten, or an entry is appended when there is none.
pub open spec fn killer_put(k: Seq<(Move, i32)>, mv: Move, score: i32) -> Seq<(Move, i32)>
    decreases k.len(),
{
    if k.len() == 0 {
        seq![(mv, score)]
    } else if k[0].0 == mv {
        k.update(0, (mv, score))
    } else {
        seq![k[0]] + killer_put(k.drop_first(), mv, score)
    }
}

proof fn lemma_killer_put_at(k: Seq<(Move, i32)>, i: int, mv: Move, score: i32)
    requires
        0 <= i < k.len(),
        k[i].0 == mv,
        forall|j: int| 0 <= j < i ==> (#[trigger] k[j]).0 != mv,
    ensures
        killer_put(k, mv, score) == k.update(i, (mv, score)),
    decreases i,
{
    if i > 0 {
        lemma_killer_put_at(k.drop_first(), i - 1, mv, score);
        assert(seq![k[0]] + k.drop_first().update(i - 1, (mv, score)) =~= k.update(i, (mv, score)));
    }
}

proof fn lemma_killer_put_new(k: Seq<(Move, i32)>, mv: Move, score: i32)
    requires
        forall|j: int| 0 <= j < k.len() ==> (#[trigger] k[j]).0 != mv,
    ensures
        killer_put(k, mv, score) == k.push((mv, score)),
    decreases k.len(),
{
    if k.len() > 0 {
        lemma_killer_put_new(k.drop_first(), mv, score);
        assert(seq![k[0]] + k.drop_first().push((mv, score)) =~= k.push((mv, score)));
    } else {
        assert(seq![(mv, score)] =~= k.push((mv, score)));
    }
}

/// Records `score` for `mv` (see [`killer_put`]).
fn killer_insert(killers: &mut Vec<(Move, i32)>, mv: Move, score: i32)
    requires
        killers_ok(old(killers)@),
        score_ok(score),
    ensures
        killers_ok(final(killers)@),
        final(killers)@ == killer_put(old(killers)@, mv, score),
{
    let ghost k0 = killers@;
    let mut i: usize = 0;
    while i < killers.len()
        invariant
            i <= killers.len(),
            killers@ == k0,
            k0 == old(killers)@,
            killers_ok(killers@),
            score_ok(score),
            forall|j: int| 0 <= j < i ==> (#[trigger] killers@[j]).0 != mv,
        decreases killers.len() - i,
    {
        if killers[i].0 == mv {
            killers.set(i, (mv, score));
            proof {
                lemma_killer_put_at(k0, i as int, mv, score);
                assert forall|j: int| 0 <= j < killers@.len() implies score_ok(#[trigger] killers@[j].1) by {
                    if j != i {
                        assert(killers@[j] == k0[j]);
                    }
                }
            }
            return ;
        }
        i = i + 1;
    }
    killers.push((mv, score));
    proof {
        lemma_killer_put_new(k0, mv, score);
        assert forall|j: int| 0 <= j < killers@.len() implies score_ok(#[trigger] killers@[j].1) by {
            if j < k0.len() {
                assert(killers@[j] == k0[j]);
            }
        }
    }
}

/// The number of leading moves of `sorted` whose key is at most `key`.
pub open spec fn keys_at_most(sorted: Seq<Move>, killers: Seq<(Move, i32)>, key: int) -> nat
    decreases sorted.len(),
{
    if sorted.len() == 0 || order_key(killers, sorted[0]) > key {
        0
    } else {
        1 + keys_at_most(sorted.drop_first(), killers, key)
    }
}

/// The first `n` moves, each inserted after every earlier one whose key is
/// not larger than its own.
pub open spec fn ordered(moves: Seq<Move>, killers: Seq<(Move, i32)>, n: int) -> Seq<Move>
    decreases n,
{
    if n <= 0 {
        Seq::empty()
    } else {
        let s = ordered(moves, killers, n - 1);
        s.insert(keys_at_most(s, killers, order_key(killers, moves[n - 1])) as int, moves[n - 1])
    }
}

/// The moves in stable order of their keys: moves with higher killer scores
/// first, the others after, each group in its incoming order.
fn order_moves(moves: Vec<Move>, killers: &Vec<(Move, i32)>) -> (r: Vec<Move>)
    requires
        killers_ok(killers@),
    ensures
        r@ == ordered(moves@, killers@, moves@.len() as int),
        r@.to_multiset() == moves@.to_multiset(),
        forall|i: int, j: int|
            0 <= i < j < r@.len() ==> order_key(killers@, #[trigger] r@[i]) <= order_key(killers@, #[trigger] r@[j]),
{
    broadcast use vstd::seq_lib::group_to_multiset_ensures;

    let mut sorted: Vec<Move> = Vec::new();
    let mut keys: Vec<i32> = Vec::new();
    let mut k: usize = 0;
    while k < moves.len()
        invariant
            k <= moves.len(),
            killers_ok(killers@),
            sorted@.len() == keys@.len(),
            forall|i: int| 0 <= i < keys@.len() ==> #[trigger] keys@[i] == order_key(killers@, sorted@[i]),
            forall|i: int, j: int| 0 <= i < j < keys@.len() ==> #[trigger] keys@[i] <= #[trigger] keys@[j],
            sorted@.to_multiset() == moves@.take(k as int).to_multiset(),
            sorted@ == ordered(moves@, killers@, k as int),
        decreases moves.len() - k,
    {
        let mv = moves[k];
        proof {
            lemma_killer_get_ok(killers@, mv);
        }
        let key: i32 = match killer_lookup(killers, &mv) {
            Some(score) => -score,
            None => 0,
        };
        let mut pos: usize = 0;
        assert(sorted@.skip(0) =~= sorted@);
        while pos < keys.len() && keys[pos] <= key
            invariant
                pos <= keys@.len(),
                sorted@.len() == keys@.len(),
                forall|i: int| 0 <= i < keys@.len() ==> #[trigger] keys@[i] == order_key(killers@, sorted@[i]),
                forall|i: int| 0 <= i < pos ==> keys@[i] <= key,
                key == order_key(killers@, mv),
                pos + keys_at_most(sorted@.skip(pos as int), killers@, key as int) == keys_at_most(
                    sorted@,
                    killers@,
                    key as int,
                ),
            decreases keys@.len() - pos,
        {
            assert(sorted@.skip(pos as int)[0] == sorted@[pos as int]);
            assert(sorted@.skip(pos as int).drop_first() =~= sorted@.skip(pos + 1));
            pos = pos + 1;
        }
        proof {
            if pos < keys@.len() {
                assert(sorted@.skip(pos as int)[0] == sorted@[pos as int]);
            }
            assert(pos == keys_at_most(sorted@, killers@, key as int));
        }
        let ghost old_keys = keys@;
        let ghost old_sorted = sorted@;
        sorted.insert(pos, mv);
        keys.insert(pos, key);
        proof {
            assert(moves@.take(k + 1) =~= moves@.take(k as int).push(mv));
            vstd::seq_lib::to_multiset_build(moves@.take(k as int), mv);
            vstd::seq_lib::to_multiset_insert(old_sorted, pos as int, mv);
            assert(sorted@ =~= old_sorted.insert(pos as int, mv));
            assert forall|i: int| 0 <= i < keys@.len() implies #[trigger] keys@[i] == order_key(killers@, sorted@[i]) by {
                if i < pos {
                    assert(keys@[i] == old_keys[i]);
                } else if i > pos {
                    assert(keys@[i] == old_keys[i - 1]);
                }
            }
            assert forall|i: int, j: int| 0 <= i < j < keys@.len() implies #[trigger] keys@[i] <= #[trigger] keys@[j] by {
                if pos < keys@.len() - 1 {
                    assert(old_keys[pos as int] > key);
                }
                if i < pos && j > pos {
                    assert(keys@[i] == old_keys[i]);
                    assert(keys@[j] == old_keys[j - 1]);
                    assert(old_keys[i] <= key);
                } else if i == pos && j > pos {
                    assert(keys@[j] == old_keys[j - 1]);
                    assert(old_keys[pos as int] <= old_keys[j - 1]);
                } else if i < pos && j == pos {
                } else if i > pos {
                    assert(keys@[i] == old_keys[i - 1]);
                    assert(keys@[j] == old_keys[j - 1]);
                } else {
                    assert(keys@[i] == old_keys[i]);
                    assert(keys@[j] == old_keys[j]);
                }
            }
        }
        k = k + 1;
    }
    assert(moves@.take(moves.len() as int) =~= moves@);
    assert forall|i: int, j: int| 0 <= i < j < sorted@.len() implies order_key(killers@, #[trigger] sorted@[i])
        <= order_key(killers@, #[trigger] sorted@[j]) by {
        assert(keys@[i] == order_key(killers@, sorted@[i]));
        assert(keys@[j] == order_key(killers@, sorted@[j]));
        assert(keys@[i] <= keys@[j]);
    }
    sorted
}


/// The moves of an ordering of the legal moves are legal and playable.
proof fn lemma_ordered_legal(sorted: Seq<Move>, generated: Seq<Move>, v: BoardView, color: u8)
    requires
        sorted.to_multiset() == generated.to_multiset(),
        views(generated) == legal_moves(v, color),
        is_color(color),
        en_passant_in_range(v, color),
    ensures
        forall|i: int|
            0 <= i < sorted.len() ==> playable(#[trigger] sorted[i]@) && legal_moves(v, color).contains(
                sorted[i]@,
            ),
{
    broadcast use vstd::seq_lib::group_to_multiset_ensures;

    lemma_pseudo_moves_playable(v, color);
    assert forall|i: int| 0 <= i < sorted.len() implies playable(#[trigger] sorted[i]@) && legal_moves(
        v,
        color,
    ).contains(sorted[i]@) by {
        let m = sorted[i];
        assert(sorted.contains(m));
        assert(sorted.to_multiset().count(m) > 0);
        assert(generated.contains(m));
        let j = choose|j: int| 0 <= j < generated.len() && generated[j] == m;
        assert(views(generated)[j] == m@);
        assert(legal_moves(v, color)[j] == m@);
        assert(legal_moves(v, color).contains(m@));
        pseudo_moves(v, color).lemma_filter_contains_rev(legality(v, color), m@);
        let k = choose|k: int| 0 <= k < pseudo_moves(v, color).len() && pseudo_moves(v, color)[k] == m@;
        assert(playable(pseudo_moves(v, color)[k]));
    }
}

/// The legal moves of `color` on `v`, as moves, in the generator's order.
#[verifier::opaque]
pub open spec fn gen_legal(v: BoardView, color: u8) -> Seq<Move> {
    legal_moves(v, color).map_values(|m: (u16, MoveType)| move_of(m))
}

/// The score of a search of no plies: the evaluation for the side to move.
pub open spec fn leaf_score(v: BoardView, color: u8, h: HeuristicParams) -> i32 {
    evaluation(v, color, h) as i32
}

/// Whether the table holds an entry for `key` searched at least `depth`
/// plies deep.
pub open spec fn table_answers(tt: Seq<Option<Entry>>, key: u64, depth: u32) -> bool {
    match entry_for(tt, key) {
        Some(e) => e.depth >= depth,
        None => false,
    }
}

/// The window after a table entry: a lower bound may raise alpha, an upper
/// bound may lower beta.
pub open spec fn window_after(en: Entry, alpha: i32, beta: i32) -> (i32, i32) {
    match en.bound_type {
        BoundType::LowerBound => (if en.score > alpha {
            en.score
        } else {
            alpha
        }, beta),
        BoundType::UpperBound => (alpha, if en.score < beta {
            en.score
        } else {
            beta
        }),
        BoundType::Exact => (alpha, beta),
    }
}

/// The window a search node searches its moves with.
pub open spec fn node_window(tt: Seq<Option<Entry>>, key: u64, alpha: i32, beta: i32, depth: u32) -> (i32, i32) {
    if table_answers(tt, key, depth) {
        window_after(entry_for(tt, key)->Some_0, alpha, beta)
    } else {
        (alpha, beta)
    }
}

/// Whether the table answers a search node without a search: its entry is
/// exact or closes the window.
pub open spec fn node_answered(tt: Seq<Option<Entry>>, key: u64, alpha: i32, beta: i32, depth: u32) -> bool {
    table_answers(tt, key, depth) && (entry_for(tt, key)->Some_0.bound_type is Exact || node_window(
        tt,
        key,
        alpha,
        beta,
        depth,
    ).0 >= node_window(tt, key, alpha, beta, depth).1)
}

/// The end of a search: the best score and move found, and the table with
/// them stored as an upper bound when the score did not rise above alpha, a
/// lower bound when it reached beta, exact otherwise.
pub open spec fn search_end(
    key: u64,
    depth: u32,
    alpha: i32,
    beta: i32,
    best_score: i32,
    best_move: Option<Move>,
    tt: Seq<Option<Entry>>,
    kl: Seq<(Move, i32)>,
) -> (SearchResult, Seq<Option<Entry>>, Seq<(Move, i32)>) {
    let bound_type = if best_score <= alpha {
        BoundType::UpperBound
    } else if best_score >= beta {
        BoundType::LowerBound
    } else {
        BoundType::Exact
    };
    (
        SearchResult { score: best_score, best_move },
        stored(tt, Entry { hash: key, score: best_score, depth, best_move, bound_type }),
        kl,
    )
}

/// What follows the search of move `mv` with the child's result `child`:
/// whether the window closed, then alpha, beta, the best score and move,
/// the table and the killer list. A strictly better score (higher when
/// maximizing, lower otherwise) becomes the best and tightens the window;
/// when the window closes, the entry is stored as a bound and the move
/// recorded as a killer.
pub open spec fn search_step(
    key: u64,
    maximizing_player: bool,
    depth: u32,
    mv: Move,
    alpha: i32,
    beta: i32,
    best_score: i32,
    best_move: Option<Move>,
    child: (SearchResult, Seq<Option<Entry>>, Seq<(Move, i32)>),
) -> (bool, i32, i32, i32, Option<Move>, Seq<Option<Entry>>, Seq<(Move, i32)>) {
    let score = child.0.score;
    let tt2 = child.1;
    let kl2 = child.2;
    if maximizing_player && score > best_score {
        let a2 = if alpha > score {
            alpha
        } else {
            score
        };
        if beta <= a2 {
            (
                true,
                a2,
                beta,
                score,
                Some(mv),
                stored(
                    tt2,
                    Entry { hash: key, score, depth, best_move: Some(mv), bound_type: BoundType::LowerBound },
                ),
                killer_put(kl2, mv, score),
            )
        } else {
            (false, a2, beta, score, Some(mv), tt2, kl2)
        }
    } else if !maximizing_player && score < best_score {
        let b2 = if beta < score {
            beta
        } else {
            score
        };
        if b2 <= alpha {
            (
                true,
                alpha,
                b2,
                score,
                Some(mv),
                stored(
                    tt2,
                    Entry { hash: key, score, depth, best_move: Some(mv), bound_type: BoundType::UpperBound },
                ),
                killer_put(kl2, mv, score),
            )
        } else {
            (false, alpha, b2, score, Some(mv), tt2, kl2)
        }
    } else {
        (false, alpha, beta, best_score, best_move, tt2, kl2)
    }
}

/// The result, table and killer list of a search that runs out of time at
/// no point: fail-hard alpha-beta from `v` with `color` to move, window
/// `alpha..beta` and `depth` plies, with keys `z`, weights `h`, table `tt`
/// and killer list `kl`. At depth 0 it is the evaluation for the side to
/// move; deeper, see [`search_node`].
#[verifier::opaque]
pub open spec fn search_value(
    z: ZobristView,
    h: HeuristicParams,
    v: BoardView,
    alpha: i32,
    beta: i32,
    maximizing_player: bool,
    color: u8,
    depth: u32,
    tt: Seq<Option<Entry>>,
    kl: Seq<(Move, i32)>,
) -> (SearchResult, Seq<Option<Entry>>, Seq<(Move, i32)>)
    decreases depth, 2int, 0int,
{
    if depth == 0 {
        (SearchResult { score: leaf_score(v, color, h), best_move: None }, tt, kl)
    } else {
        search_node(z, h, v, alpha, beta, maximizing_player, color, depth, tt, kl)
    }
}

/// A search node of at least one ply: an entry of the table for the
/// position's hash, searched at least as deep, answers when it is exact or
/// closes the window, and otherwise narrows the window; a side without
/// legal moves scores the lowest value when maximizing and the highest
/// otherwise; else the legal moves, ordered by killer score, are searched
/// in turn (see [`search_moves`]).
#[verifier::opaque]
pub open spec fn search_node(
    z: ZobristView,
    h: HeuristicParams,
    v: BoardView,
    alpha: i32,
    beta: i32,
    maximizing_player: bool,
    color: u8,
    depth: u32,
    tt: Seq<Option<Entry>>,
    kl: Seq<(Move, i32)>,
) -> (SearchResult, Seq<Option<Entry>>, Seq<(Move, i32)>)
    decreases depth, 1int, 0int,
{
    let key = hash_spec(z, v, color);
    if node_answered(tt, key, alpha, beta, depth) {
        let en = entry_for(tt, key)->Some_0;
        (SearchResult { score: en.score, best_move: en.best_move }, tt, kl)
    } else {
        let gen = gen_legal(v, color);
        if gen.len() == 0 {
            (
                SearchResult {
                    score: if maximizing_player {
                        MIN_SCORE
                    } else {
                        MAX_SCORE
                    },
                    best_move: None,
                },
                tt,
                kl,
            )
        } else {
            let window = node_window(tt, key, alpha, beta, depth);
            search_moves(
                z,
                h,
                v,
                maximizing_player,
                color,
                depth,
                ordered(gen, kl, gen.len() as int),
                0,
                window.0,
                window.1,
                if maximizing_player {
                    MIN_SCORE
                } else {
                    MAX_SCORE
                },
                None,
                tt,
                kl,
            )
        }
    }
}

/// The search of the moves from the `i`-th on: the `i`-th is played and
/// searched one ply shallower for the other side, then [`search_step`] says
/// whether the search ends there (see [`search_end`]) or goes on.
#[verifier::opaque]
pub open spec fn search_moves(
    z: ZobristView,
    h: HeuristicParams,
    v: BoardView,
    maximizing_player: bool,
    color: u8,
    depth: u32,
    moves: Seq<Move>,
    i: int,
    alpha: i32,
    beta: i32,
    best_score: i32,
    best_move: Option<Move>,
    tt: Seq<Option<Entry>>,
    kl: Seq<(Move, i32)>,
) -> (SearchResult, Seq<Option<Entry>>, Seq<(Move, i32)>)
    decreases depth, 0int, moves.len() - i,
{
    let key = hash_spec(z, v, color);
    if depth == 0 || i < 0 || i >= moves.len() {
        search_end(key, depth, alpha, beta, best_score, best_move, tt, kl)
    } else {
        let st = search_step(
            key,
            maximizing_player,
            depth,
            moves[i],
            alpha,
            beta,
            best_score,
            best_move,
            search_value(
                z,
                h,
                after_move(v, moves[i]@),
                alpha,
                beta,
                !maximizing_player,
                opponent(color),
                (depth - 1) as u32,
                tt,
                kl,
            ),
        );
        if st.0 {
            search_end(key, depth, st.1, st.2, st.3, st.4, st.5, st.6)
        } else {
            search_moves(z, h, v, maximizing_player, color, depth, moves, i + 1, st.1, st.2, st.3, st.4, st.5, st.6)
        }
    }
}

/// One level of the search's definitions, spelled out.
proof fn lemma_search_unfold(
    z: ZobristView,
    h: HeuristicParams,
    v: BoardView,
    alpha: i32,
    beta: i32,
    maximizing_player: bool,
    color: u8,
    depth: u32,
    moves: Seq<Move>,
    i: int,
    best_score: i32,
    best_move: Option<Move>,
    tt: Seq<Option<Entry>>,
    kl: Seq<(Move, i32)>,
)
    ensures
        depth == 0 ==> search_value(z, h, v, alpha, beta, maximizing_player, color, depth, tt, kl) == (
            SearchResult { score: leaf_score(v, color, h), best_move: None },
            tt,
            kl,
        ),
        depth > 0 ==> search_value(z, h, v, alpha, beta, maximizing_player, color, depth, tt, kl)
            == search_node(z, h, v, alpha, beta, maximizing_player, color, depth, tt, kl),
        ({
            let key = hash_spec(z, v, color);
            node_answered(tt, key, alpha, beta, depth) ==> search_node(
                z,
                h,
                v,
                alpha,
                beta,
                maximizing_player,
                color,
                depth,
                tt,
                kl,
            ) == (
                SearchResult {
                    score: entry_for(tt, key)->Some_0.score,
                    best_move: entry_for(tt, key)->Some_0.best_move,
                },
                tt,
                kl,
            )
        }),
        ({
            let key = hash_spec(z, v, color);
            !node_answered(tt, key, alpha, beta, depth) && gen_legal(v, color).len() == 0 ==> search_node(
                z,
                h,
                v,
                alpha,
                beta,
                maximizing_player,
                color,
                depth,
                tt,
                kl,
            ) == (
                SearchResult {
                    score: if maximizing_player {
                        MIN_SCORE
                    } else {
                        MAX_SCORE
                    },
                    best_move: None,
                },
                tt,
                kl,
            )
        }),
        ({
            let key = hash_spec(z, v, color);
            let gen = gen_legal(v, color);
            !node_answered(tt, key, alpha, beta, depth) && gen.len() > 0 ==> search_node(
                z,
                h,
                v,
                alpha,
                beta,
                maximizing_player,
                color,
                depth,
                tt,
                kl,
            ) == search_moves(
                z,
                h,
                v,
                maximizing_player,
                color,
                depth,
                ordered(gen, kl, gen.len() as int),
                0,
                node_window(tt, key, alpha, beta, depth).0,
                node_window(tt, key, alpha, beta, depth).1,
                if maximizing_player {
                    MIN_SCORE
                } else {
                    MAX_SCORE
                },
                None,
                tt,
                kl,
            )
        }),
        ({
            let key = hash_spec(z, v, color);
            search_moves(z, h, v, maximizing_player, color, depth, moves, i, alpha, beta, best_score, best_move, tt, kl)
                == (if depth == 0 || i < 0 || i >= moves.len() {
                search_end(key, depth, alpha, beta, best_score, best_move, tt, kl)
            } else {
                let st = search_step(
                    key,
                    maximizing_player,
                    depth,
                    moves[i],
                    alpha,
                    beta,
                    best_score,
                    best_move,
                    search_value(
                        z,
                        h,
                        after_move(v, moves[i]@),
                        alpha,
                        beta,
                        !maximizing_player,
                        opponent(color),
                        (depth - 1) as u32,
                        tt,
                        kl,
                    ),
                );
                if st.0 {
                    search_end(key, depth, st.1, st.2, st.3, st.4, st.5, st.6)
                } else {
                    search_moves(z, h, v, maximizing_player, color, depth, moves, i + 1, st.1, st.2, st.3, st.4, st.5, st.6)
                }
            })
        }),
{
    reveal(search_value);
    reveal(search_node);
    reveal(search_moves);
}

/// A stable insertion position lies within the list.
proof fn lemma_keys_at_most_len(sorted: Seq<Move>, killers: Seq<(Move, i32)>, key: int)
    ensures
        keys_at_most(sorted, killers, key) <= sorted.len(),
    decreases sorted.len(),
{
    if sorted.len() > 0 && order_key(killers, sorted[0]) <= key {
        lemma_keys_at_most_len(sorted.drop_first(), killers, key);
    }
}

/// The ordered moves are the first `n` moves, rearranged.
proof fn lemma_ordered_permutes(moves: Seq<Move>, killers: Seq<(Move, i32)>, n: int)
    requires
        0 <= n <= moves.len(),
    ensures
        ordered(moves, killers, n).to_multiset() == moves.take(n).to_multiset(),
    decreases n,
{
    if n > 0 {
        lemma_ordered_permutes(moves, killers, n - 1);
        let s = ordered(moves, killers, n - 1);
        let pos = keys_at_most(s, killers, order_key(killers, moves[n - 1])) as int;
        lemma_keys_at_most_len(s, killers, order_key(killers, moves[n - 1]));
        vstd::seq_lib::to_multiset_insert(s, pos, moves[n - 1]);
        assert(moves.take(n) =~= moves.take(n - 1).push(moves[n - 1]));
        vstd::seq_lib::to_multiset_build(moves.take(n - 1), moves[n - 1]);
    } else {
        assert(moves.take(0) =~= Seq::<Move>::empty());
    }
}

/// The score a one-ply search gives the move `m`: the evaluation, for the
/// side then to move, of the position it leads to.
pub open spec fn one_ply_child(h: HeuristicParams, v: BoardView, color: u8, m: (u16, MoveType)) -> i32 {
    leaf_score(after_move(v, m), opponent(color), h)
}

/// The search of moves `i..` of a one-ply node keeps the best score and
/// never cuts off while every child scores strictly between the lowest and
/// the highest score: the result is the best of the best score so far and
/// the scores of the remaining children.
proof fn lemma_one_ply_moves(
    z: ZobristView,
    h: HeuristicParams,
    v: BoardView,
    maximizing_player: bool,
    color: u8,
    moves: Seq<Move>,
    i: int,
    alpha: i32,
    beta: i32,
    best_score: i32,
    best_move: Option<Move>,
    tt: Seq<Option<Entry>>,
    kl: Seq<(Move, i32)>,
)
    requires
        0 <= i <= moves.len(),
        forall|k: int| i <= k < moves.len() ==> MIN_SCORE < #[trigger] one_ply_child(h, v, color, moves[k]@) < MAX_SCORE,
        maximizing_player ==> beta == MAX_SCORE && alpha < MAX_SCORE,
        !maximizing_player ==> alpha == MIN_SCORE && beta > MIN_SCORE,
    ensures
        ({
            let r = search_moves(z, h, v, maximizing_player, color, 1, moves, i, alpha, beta, best_score, best_move, tt, kl).0.score;
            &&& maximizing_player ==> r >= best_score && forall|k: int| i <= k < moves.len() ==> r >= #[trigger] one_ply_child(h, v, color, moves[k]@)
            &&& !maximizing_player ==> r <= best_score && forall|k: int| i <= k < moves.len() ==> r <= #[trigger] one_ply_child(h, v, color, moves[k]@)
            &&& r == best_score || exists|k: int| i <= k < moves.len() && r == #[trigger] one_ply_child(h, v, color, moves[k]@)
        }),
    decreases moves.len() - i,
{
    lemma_search_unfold(z, h, v, alpha, beta, maximizing_player, color, 1, moves, i, best_score, best_move, tt, kl);
    if i < moves.len() {
        let after = after_move(v, moves[i]@);
        lemma_search_unfold(
            z,
            h,
            after,
            alpha,
            beta,
            !maximizing_player,
            opponent(color),
            0,
            moves,
            i,
            best_score,
            best_move,
            tt,
            kl,
        );
        let s = one_ply_child(h, v, color, moves[i]@);
        let key = hash_spec(z, v, color);
        let st = search_step(
            key,
            maximizing_player,
            1,
            moves[i],
            alpha,
            beta,
            best_score,
            best_move,
            (SearchResult { score: s, best_move: None }, tt, kl),
        );
        assert(!st.0);
        lemma_one_ply_moves(z, h, v, maximizing_player, color, moves, i + 1, st.1, st.2, st.3, st.4, st.5, st.6);
        let r = search_moves(z, h, v, maximizing_player, color, 1, moves, i, alpha, beta, best_score, best_move, tt, kl).0.score;
        if r != best_score && r != s {
            let k = choose|k: int| i + 1 <= k < moves.len() && r == #[trigger] one_ply_child(h, v, color, moves[k]@);
            assert(i <= k < moves.len());
        }
    }
}

/// The legal moves as moves have the legal moves as views.
proof fn lemma_gen_legal_views(v: BoardView, color: u8)
    ensures
        gen_legal(v, color).len() == legal_moves(v, color).len(),
        forall|k: int| 0 <= k < gen_legal(v, color).len() ==> #[trigger] gen_legal(v, color)[k]@ == legal_moves(v, color)[k],
{
    reveal(gen_legal);
    assert forall|k: int| 0 <= k < gen_legal(v, color).len() implies #[trigger] gen_legal(v, color)[k]@ == legal_moves(v, color)[k] by {
        lemma_move_of(gen_legal(v, color)[k], legal_moves(v, color)[k]);
    }
}

/// The killer ordering of a list holds the same moves as the list.
proof fn lemma_ordered_same_moves(moves: Seq<Move>, killers: Seq<(Move, i32)>)
    ensures
        ordered(moves, killers, moves.len() as int).len() == moves.len(),
        forall|k: int|
            0 <= k < moves.len() ==> exists|j: int|
                0 <= j < moves.len() && #[trigger] ordered(moves, killers, moves.len() as int)[k] == moves[j],
        forall|j: int|
            0 <= j < moves.len() ==> exists|k: int|
                0 <= k < moves.len() && ordered(moves, killers, moves.len() as int)[k] == #[trigger] moves[j],
{
    broadcast use vstd::seq_lib::group_to_multiset_ensures;

    let order = ordered(moves, killers, moves.len() as int);
    lemma_ordered_permutes(moves, killers, moves.len() as int);
    assert(moves.take(moves.len() as int) =~= moves);
    assert(order.len() == moves.len()) by {
        assert(order.to_multiset().len() == moves.to_multiset().len());
    }
    assert forall|k: int| 0 <= k < moves.len() implies exists|j: int|
        0 <= j < moves.len() && #[trigger] order[k] == moves[j] by {
        let m = order[k];
        assert(order.contains(m));
        assert(order.to_multiset().count(m) > 0);
        assert(moves.contains(m));
    }
    assert forall|j: int| 0 <= j < moves.len() implies exists|k: int|
        0 <= k < moves.len() && order[k] == #[trigger] moves[j] by {
        let m = moves[j];
        assert(moves.contains(m));
        assert(moves.to_multiset().count(m) > 0);
        assert(order.contains(m));
    }
}

/// A one-ply search over the legal moves as moves: the maximizing side's
/// score is the highest child score, the minimizing side's the lowest.
proof fn lemma_one_ply_search_moves(
    z: ZobristView,
    h: HeuristicParams,
    v: BoardView,
    maximizing_player: bool,
    color: u8,
    tt: Seq<Option<Entry>>,
    kl: Seq<(Move, i32)>,
)
    requires
        !table_answers(tt, hash_spec(z, v, color), 1),
        gen_legal(v, color).len() > 0,
        forall|k: int|
            0 <= k < gen_legal(v, color).len() ==> MIN_SCORE < #[trigger] one_ply_child(
                h,
                v,
                color,
                gen_legal(v, color)[k]@,
            ) < MAX_SCORE,
    ensures
        ({
            let r = search_value(z, h, v, MIN_SCORE, MAX_SCORE, maximizing_player, color, 1, tt, kl).0.score;
            let gen = gen_legal(v, color);
            &&& maximizing_player ==> forall|k: int| 0 <= k < gen.len() ==> r >= #[trigger] one_ply_child(h, v, color, gen[k]@)
            &&& !maximizing_player ==> forall|k: int| 0 <= k < gen.len() ==> r <= #[trigger] one_ply_child(h, v, color, gen[k]@)
            &&& exists|k: int| 0 <= k < gen.len() && r == #[trigger] one_ply_child(h, v, color, gen[k]@)
        }),
{
    let gen = gen_legal(v, color);
    let key = hash_spec(z, v, color);
    lemma_search_unfold(z, h, v, MIN_SCORE, MAX_SCORE, maximizing_player, color, 1, Seq::empty(), 0, 0i32, None, tt, kl);
    assert(node_window(tt, key, MIN_SCORE, MAX_SCORE, 1) == (MIN_SCORE, MAX_SCORE));
    assert(!node_answered(tt, key, MIN_SCORE, MAX_SCORE, 1));
    let order = ordered(gen, kl, gen.len() as int);
    lemma_ordered_same_moves(gen, kl);
    assert forall|k: int| 0 <= k < order.len() implies MIN_SCORE < #[trigger] one_ply_child(h, v, color, order[k]@) < MAX_SCORE by {
        let j = choose|j: int| 0 <= j < gen.len() && #[trigger] order[k] == gen[j];
        assert(one_ply_child(h, v, color, gen[j]@) == one_ply_child(h, v, color, order[k]@));
    }
    let best0 = if maximizing_player {
        MIN_SCORE
    } else {
        MAX_SCORE
    };
    lemma_one_ply_moves(z, h, v, maximizing_player, color, order, 0, MIN_SCORE, MAX_SCORE, best0, None, tt, kl);
    let r = search_value(z, h, v, MIN_SCORE, MAX_SCORE, maximizing_player, color, 1, tt, kl).0.score;
    assert forall|j: int| 0 <= j < gen.len() implies (maximizing_player ==> r >= #[trigger] one_ply_child(h, v, color, gen[j]@)) && (!maximizing_player ==> r <= one_ply_child(h, v, color, gen[j]@)) by {
        let k = choose|k: int| 0 <= k < gen.len() && order[k] == #[trigger] gen[j];
        assert(one_ply_child(h, v, color, order[k]@) == one_ply_child(h, v, color, gen[j]@));
    }
    let c0 = one_ply_child(h, v, color, order[0]@);
    assert(r != best0);
    let k = choose|k: int| 0 <= k < order.len() && r == #[trigger] one_ply_child(h, v, color, order[k]@);
    let j = choose|j: int| 0 <= j < gen.len() && #[trigger] order[k] == gen[j];
    assert(r == one_ply_child(h, v, color, gen[j]@));
}

/// A one-ply search is minimax: with the full window, a table that holds no
/// entry for the position searched at least one ply deep, and children that all score strictly between the
/// lowest and the highest score, the maximizing side's score is the highest
/// child score, and the minimizing side's the lowest, the score of some
/// legal move either way.
pub proof fn lemma_one_ply_search(
    z: ZobristView,
    h: HeuristicParams,
    v: BoardView,
    maximizing_player: bool,
    color: u8,
    tt: Seq<Option<Entry>>,
    kl: Seq<(Move, i32)>,
)
    requires
        !table_answers(tt, hash_spec(z, v, color), 1),
        legal_moves(v, color).len() > 0,
        forall|k: int|
            0 <= k < legal_moves(v, color).len() ==> MIN_SCORE < #[trigger] one_ply_child(
                h,
                v,
                color,
                legal_moves(v, color)[k],
            ) < MAX_SCORE,
    ensures
        ({
            let r = search_value(z, h, v, MIN_SCORE, MAX_SCORE, maximizing_player, color, 1, tt, kl).0.score;
            let legal = legal_moves(v, color);
            &&& maximizing_player ==> forall|k: int| 0 <= k < legal.len() ==> r >= #[trigger] one_ply_child(h, v, color, legal[k])
            &&& !maximizing_player ==> forall|k: int| 0 <= k < legal.len() ==> r <= #[trigger] one_ply_child(h, v, color, legal[k])
            &&& exists|k: int| 0 <= k < legal.len() && r == #[trigger] one_ply_child(h, v, color, legal[k])
        }),
{
    lemma_gen_legal_views(v, color);
    let gen = gen_legal(v, color);
    let legal = legal_moves(v, color);
    assert forall|k: int| 0 <= k < gen.len() implies MIN_SCORE < #[trigger] one_ply_child(h, v, color, gen[k]@) < MAX_SCORE by {
        assert(gen[k]@ == legal[k]);
    }
    lemma_one_ply_search_moves(z, h, v, maximizing_player, color, tt, kl);
    let r = search_value(z, h, v, MIN_SCORE, MAX_SCORE, maximizing_player, color, 1, tt, kl).0.score;
    assert forall|k: int| 0 <= k < legal.len() implies (maximizing_player ==> r >= #[trigger] one_ply_child(h, v, color, legal[k])) && (!maximizing_player ==> r <= one_ply_child(h, v, color, legal[k])) by {
        assert(gen[k]@ == legal[k]);
    }
    let k = choose|k: int| 0 <= k < gen.len() && r == #[trigger] one_ply_child(h, v, color, gen[k]@);
    assert(gen[k]@ == legal[k]);
}

/// What the search does with the score of a move (see [`search_step`]),
/// returning whether the window closed.
fn record_score(
    maximizing_player: bool,
    depth: u32,
    board_key: u64,
    mov: Move,
    score: i32,
    alpha: &mut i32,
    beta: &mut i32,
    best_score: &mut i32,
    best_move: &mut Option<Move>,
    transposition_table: &mut TranspositionTable,
    killer_moves: &mut Vec<(Move, i32)>,
) -> (cut: bool)
    requires
        old(transposition_table).wf(),
        killers_ok(old(killer_moves)@),
        score_ok(score),
        score_ok(*old(alpha)),
        score_ok(*old(beta)),
        score_ok(*old(best_score)),
    ensures
        final(transposition_table).wf(),
        killers_ok(final(killer_moves)@),
        score_ok(*final(alpha)),
        score_ok(*final(beta)),
        score_ok(*final(best_score)),
        (
            cut,
            *final(alpha),
            *final(beta),
            *final(best_score),
            *final(best_move),
            final(transposition_table)@,
            final(killer_moves)@,
        ) == search_step(
            board_key,
            maximizing_player,
            depth,
            mov,
            *old(alpha),
            *old(beta),
            *old(best_score),
            *old(best_move),
            (SearchResult { score, best_move: None }, old(transposition_table)@, old(killer_moves)@),
        ),
{
    if maximizing_player && score > *best_score {
        *best_move = Some(mov);
        *best_score = score;
        *alpha = if *alpha > score {
            *alpha
        } else {
            score
        };
        if *beta <= *alpha {
            transposition_table.insert(
                Entry {
                    hash: board_key,
                    score: *best_score,
                    depth: depth,
                    best_move: *best_move,
                    bound_type: BoundType::LowerBound,
                },
            );
            killer_insert(killer_moves, mov, *best_score);
            return true;
        }
    } else if !maximizing_player && score < *best_score {
        *best_move = Some(mov);
        *best_score = score;
        *beta = if *beta < score {
            *beta
        } else {
            score
        };
        if *beta <= *alpha {
            transposition_table.insert(
                Entry {
                    hash: board_key,
                    score: *best_score,
                    depth,
                    best_move: *best_move,
                    bound_type: BoundType::UpperBound,
                },
            );
            killer_insert(killer_moves, mov, *best_score);
            return true;
        }
    }
    false
}

/// A search in progress: its transposition table, killer moves, evaluation
/// weights, start time and hash keys.
struct Search {
    transposition_table: TranspositionTable,
    killer_moves: Vec<(Move, i32)>,
    heuristics_params: HeuristicParams,
    start_time: Instant,
    zobrist: ZobristTable,
    /// The milliseconds elapsed at each reading of the clock, in order.
    readings: Ghost<Seq<u128>>,
}

/// Whether a clock reading of `readings`, from index `from` on, exceeds the
/// time limit.
pub open spec fn over_limit_from(readings: Seq<u128>, from: int) -> bool {
    exists|k: int| from <= k < readings.len() && readings[k] > TIME_CUTOFF as u128
}

/// `longer` begins with `shorter`.
pub open spec fn extends(longer: Seq<u128>, shorter: Seq<u128>) -> bool {
    &&& shorter.len() <= longer.len()
    &&& forall|k: int| 0 <= k < shorter.len() ==> longer[k] == shorter[k]
}

/// Readings beyond a prefix exceed the limit when those up to it or those
/// after it do.
proof fn lemma_over_limit_split(a: Seq<u128>, b: Seq<u128>, from: int)
    requires
        extends(b, a),
        0 <= from <= a.len(),
    ensures
        over_limit_from(b, from) == (over_limit_from(a, from) || over_limit_from(b, a.len() as int)),
{
    if over_limit_from(a, from) {
        let k = choose|k: int| from <= k < a.len() && a[k] > TIME_CUTOFF as u128;
        assert(b[k] == a[k]);
    }
    if over_limit_from(b, from) && !over_limit_from(b, a.len() as int) {
        let k = choose|k: int| from <= k < b.len() && b[k] > TIME_CUTOFF as u128;
        assert(k < a.len());
        assert(b[k] == a[k]);
    }
}

/// Readings that exceed the limit nowhere exceed it on any prefix, nor on
/// any part after a prefix.
pub proof fn lemma_over_limit_prefix(a: Seq<u128>, b: Seq<u128>)
    requires
        extends(b, a),
    ensures
        over_limit_from(a, 0) ==> over_limit_from(b, 0),
        over_limit_from(b, a.len() as int) ==> over_limit_from(b, 0),
{
    lemma_over_limit_split(a, b, 0);
}

/// Whether a search that has run `ms` milliseconds must stop: after
/// `TIME_CUTOFF` milliseconds.
pub fn out_of_time(ms: u128) -> (r: bool)
    ensures
        r == (ms > TIME_CUTOFF as u128),
{
    ms > TIME_CUTOFF as u128
}

impl Search {
    spec fn wf(&self) -> bool {
        &&& self.transposition_table.wf()
        &&& killers_ok(self.killer_moves@)
        &&& params_bounded(self.heuristics_params)
        &&& table_ok(self.zobrist@)
    }

    /// Fail-hard alpha-beta with a transposition table and killer-move
    /// ordering. The clock is read before each move is searched, and each
    /// reading is recorded. Besides the result the search reports whether
    /// any reading during it, its own or one of the searches below it,
    /// exceeded the time limit, and whether it stopped on such a reading of
    /// its own, with the worst value for the maximizing or minimizing player
    /// and no move. When no reading exceeded the limit, the result, the
    /// table and the killer list are [`search_value`] of the position,
    /// window, side to move, depth, table and killer list it started from,
    /// with the search's keys and weights. At depth 0, when the table
    /// answers, or when the side has no legal move, the clock is not read.
    #[verifier::rlimit(100)]
    fn alpha_beta(
        &mut self,
        chessboard: Chessboard,
        alpha: i32,
        beta: i32,
        maximizing_player: bool,
        color_to_move: u8,
        depth: u32,
    ) -> (r: (SearchResult, Ghost<bool>, Ghost<bool>))
        requires
            old(self).wf(),
            is_color(color_to_move),
            chessboard@.en_passant <= 8,
            score_ok(alpha),
            score_ok(beta),
        ensures
            final(self).wf(),
            final(self).heuristics_params == old(self).heuristics_params,
            final(self).zobrist@ == old(self).zobrist@,
            score_ok(r.0.score),
            depth == 0 ==> r.0.score == evaluation(chessboard@, color_to_move, old(self).heuristics_params)
                && r.0.best_move is None && !r.1@,
            extends(final(self).readings@, old(self).readings@),
            r.1@ == over_limit_from(final(self).readings@, old(self).readings@.len() as int),
            r.2@ ==> r.1@ && r.0.best_move is None && r.0.score == (if maximizing_player {
                MIN_SCORE
            } else {
                MAX_SCORE
            }),
            depth == 0 || node_answered(
                old(self).transposition_table@,
                hash_spec(old(self).zobrist@, chessboard@, color_to_move),
                alpha,
                beta,
                depth,
            ) || gen_legal(chessboard@, color_to_move).len() == 0 ==> final(self).readings@ == old(self).readings@,
            !r.1@ ==> (r.0, final(self).transposition_table@, final(self).killer_moves@) == search_value(
                old(self).zobrist@,
                old(self).heuristics_params,
                chessboard@,
                alpha,
                beta,
                maximizing_player,
                color_to_move,
                depth,
                old(self).transposition_table@,
                old(self).killer_moves@,
            ),
        decreases depth,
    {
        let ghost z = self.zobrist@;
        let ghost h = self.heuristics_params;
        let ghost v = chessboard@;
        let ghost tt0 = self.transposition_table@;
        let ghost kl0 = self.killer_moves@;
        let ghost target = search_value(z, h, v, alpha, beta, maximizing_player, color_to_move, depth, tt0, kl0);
        proof {
            lemma_search_unfold(
                z,
                h,
                v,
                alpha,
                beta,
                maximizing_player,
                color_to_move,
                depth,
                Seq::empty(),
                0,
                0i32,
                None,
                tt0,
                kl0,
            );
        }
        if depth == 0 {
            proof {
                lemma_evaluation_bounded(chessboard@, color_to_move, self.heuristics_params);
            }
            let score = evaluate(&chessboard, color_to_move, &self.heuristics_params);
            return (SearchResult { score, best_move: None }, Ghost(false), Ghost(false));
        }
        let ghost alpha0 = alpha;
        let ghost beta0 = beta;
        let mut a = alpha;
        let mut b = beta;
        let board_key: u64 = self.zobrist.hash(&chessboard, color_to_move);
        match self.transposition_table.get(board_key) {
            Some(entry) => {
                if entry.depth >= depth {
                    match entry.bound_type {
                        BoundType::Exact => {
                            return (SearchResult { score: entry.score, best_move: entry.best_move }, Ghost(false), Ghost(false));
                        },
                        BoundType::LowerBound => {
                            if entry.score > a {
                                a = entry.score;
                            }
                        },
                        BoundType::UpperBound => {
                            if entry.score < b {
                                b = entry.score;
                            }
                        },
                    }
                    if a >= b {
                        return (SearchResult { score: entry.score, best_move: entry.best_move }, Ghost(false), Ghost(false));
                    }
                }
            },
            None => {},
        }
        proof {
            let en = entry_for(tt0, board_key)->Some_0;
            if table_answers(tt0, board_key, depth) {
                assert((a, b) == window_after(en, alpha0, beta0));
            } else {
                assert(a == alpha0 && b == beta0);
            }
            assert((a, b) == node_window(tt0, board_key, alpha0, beta0, depth));
            assert(!node_answered(tt0, board_key, alpha0, beta0, depth));
        }
        let mut best_score: i32 = if maximizing_player {
            MIN_SCORE
        } else {
            MAX_SCORE
        };
        let mut best_move: Option<Move> = None;
        let mut position = chessboard;
        let generated = generate_moves(&mut position, color_to_move);
        proof {
            reveal(gen_legal);
            assert forall|k: int| 0 <= k < generated@.len() implies #[trigger] generated@[k] == gen_legal(
                v,
                color_to_move,
            )[k] by {
                assert(views(generated@)[k] == generated@[k]@);
                lemma_move_of(generated@[k], generated@[k]@);
            }
            assert(generated@ =~= gen_legal(v, color_to_move));
        }
        if generated.len() == 0 {
            return (
                SearchResult {
                    score: if maximizing_player {
                        MIN_SCORE
                    } else {
                        MAX_SCORE
                    },
                    best_move: None,
                },
                Ghost(false),
                Ghost(false),
            );
        }
        let ghost gen = generated@;
        let moves = order_moves(generated, &self.killer_moves);
        proof {
            lemma_ordered_legal(moves@, gen, chessboard@, color_to_move);
            assert(target == search_moves(
                z,
                h,
                v,
                maximizing_player,
                color_to_move,
                depth,
                moves@,
                0,
                a,
                b,
                best_score,
                best_move,
                tt0,
                kl0,
            ));
        }
        let next_color = if color_to_move == WHITE {
            BLACK
        } else {
            WHITE
        };
        let ghost mut timed_out = false;
        let ghost r0 = old(self).readings@;
        let mut i: usize = 0;
        while i < moves.len()
            invariant_except_break
                !timed_out ==> search_moves(
                    z,
                    h,
                    v,
                    maximizing_player,
                    color_to_move,
                    depth,
                    moves@,
                    i as int,
                    a,
                    b,
                    best_score,
                    best_move,
                    self.transposition_table@,
                    self.killer_moves@,
                ) == target,
                !timed_out && i == moves.len() ==> search_end(
                    board_key,
                    depth,
                    a,
                    b,
                    best_score,
                    best_move,
                    self.transposition_table@,
                    self.killer_moves@,
                ) == target,
            invariant
                i <= moves.len(),
                self.wf(),
                self.heuristics_params == h,
                self.zobrist@ == z,
                h == old(self).heuristics_params,
                z == old(self).zobrist@,
                v == chessboard@,
                board_key == hash_spec(z, v, color_to_move),
                is_color(color_to_move),
                next_color == opponent(color_to_move),
                1 <= depth,
                score_ok(a),
                score_ok(b),
                score_ok(best_score),
                forall|k: int| 0 <= k < moves@.len() ==> playable(#[trigger] moves@[k]@),
                r0 == old(self).readings@,
                extends(self.readings@, r0),
                timed_out == over_limit_from(self.readings@, r0.len() as int),
                tt0 == old(self).transposition_table@,
                !node_answered(tt0, board_key, alpha0, beta0, depth),
                alpha0 == alpha,
                beta0 == beta,
                gen_legal(v, color_to_move).len() > 0,
            ensures
                extends(self.readings@, r0),
                timed_out == over_limit_from(self.readings@, r0.len() as int),
                self.wf(),
                self.heuristics_params == h,
                self.zobrist@ == z,
                score_ok(a),
                score_ok(b),
                score_ok(best_score),
                !timed_out ==> search_end(
                    board_key,
                    depth,
                    a,
                    b,
                    best_score,
                    best_move,
                    self.transposition_table@,
                    self.killer_moves@,
                ) == target,
            decreases moves.len() - i,
        {
            let ms = as_millis(&elapsed(&self.start_time));
            let ghost before_reading = self.readings@;
            self.readings = Ghost(self.readings@.push(ms));
            proof {
                lemma_over_limit_split(before_reading, self.readings@, r0.len() as int);
                assert(extends(self.readings@, r0));
                assert(over_limit_from(self.readings@, before_reading.len() as int) == (ms > TIME_CUTOFF as u128)) by {
                    if ms > TIME_CUTOFF as u128 {
                        assert(self.readings@[before_reading.len() as int] == ms);
                    }
                }
            }
            if out_of_time(ms) {
                return (
                    SearchResult {
                        score: if maximizing_player {
                            MIN_SCORE
                        } else {
                            MAX_SCORE
                        },
                        best_move: None,
                    },
                    Ghost(true),
                    Ghost(true),
                );
            }
            let mov = moves[i];
            assert(playable(moves@[i as int]@));
            let ghost alpha_i = a;
            let ghost beta_i = b;
            let ghost best_score_i = best_score;
            let ghost best_move_i = best_move;
            let ghost tt_i = self.transposition_table@;
            let ghost kl_i = self.killer_moves@;
            let mut next = chessboard;
            next.move_piece(mov.get_piece_type(), mov.get_color(), &mov);
            proof {
                crate::chessboard::lemma_move_piece_en_passant(
                    chessboard@,
                    crate::movegenerator::mover_piece(mov@),
                    crate::movegenerator::mover_color(mov@),
                    mov@,
                );
                assert(next@ == after_move(v, moves@[i as int]@));
            }
            let ghost before_child = self.readings@;
            let (result, child_timed_out, _) = self.alpha_beta(
                next,
                a,
                b,
                !maximizing_player,
                next_color,
                depth - 1,
            );
            proof {
                lemma_search_unfold(
                    z,
                    h,
                    v,
                    alpha_i,
                    beta_i,
                    maximizing_player,
                    color_to_move,
                    depth,
                    moves@,
                    i as int,
                    best_score_i,
                    best_move_i,
                    tt_i,
                    kl_i,
                );
                lemma_over_limit_split(before_child, self.readings@, r0.len() as int);
                assert(extends(self.readings@, r0));
                if child_timed_out@ {
                    timed_out = true;
                }
                assert(search_step(
                    board_key,
                    maximizing_player,
                    depth,
                    mov,
                    alpha_i,
                    beta_i,
                    best_score_i,
                    best_move_i,
                    (result, self.transposition_table@, self.killer_moves@),
                ) == search_step(
                    board_key,
                    maximizing_player,
                    depth,
                    mov,
                    alpha_i,
                    beta_i,
                    best_score_i,
                    best_move_i,
                    (SearchResult { score: result.score, best_move: None }, self.transposition_table@, self.killer_moves@),
                ));
            }
            let cut = record_score(
                maximizing_player,
                depth,
                board_key,
                mov,
                result.score,
                &mut a,
                &mut b,
                &mut best_score,
                &mut best_move,
                &mut self.transposition_table,
                &mut self.killer_moves,
            );
            if cut {
                break ;
            }
            i = i + 1;
            proof {
                lemma_search_unfold(
                    z,
                    h,
                    v,
                    a,
                    b,
                    maximizing_player,
                    color_to_move,
                    depth,
                    moves@,
                    i as int,
                    best_score,
                    best_move,
                    self.transposition_table@,
                    self.killer_moves@,
                );
            }
        }
        let bound_type = if best_score <= a {
            BoundType::UpperBound
        } else if best_score >= b {
            BoundType::LowerBound
        } else {
            BoundType::Exact
        };
        self.transposition_table.insert(
            Entry { hash: board_key, score: best_score, depth, best_move, bound_type },
        );
        (SearchResult { score: best_score, best_move }, Ghost(timed_out), Ghost(false))
    }
}

/// The index of the last highest score of a non-empty list: a later score
/// replaces the one kept when it is at least as high.
pub open spec fn last_best(scores: Seq<int>) -> int
    decreases scores.len(),
{
    if scores.len() <= 1 {
        0
    } else {
        let k = last_best(scores.drop_last());
        if scores.last() >= scores[k] {
            scores.len() - 1
        } else {
            k
        }
    }
}

/// The last highest score is a highest score, and every later one is lower.
pub proof fn lemma_last_best(scores: Seq<int>)
    requires
        scores.len() > 0,
    ensures
        0 <= last_best(scores) < scores.len(),
        forall|j: int| 0 <= j < scores.len() ==> #[trigger] scores[j] <= scores[last_best(scores)],
        forall|j: int| last_best(scores) < j < scores.len() ==> #[trigger] scores[j] < scores[last_best(scores)],
    decreases scores.len(),
{
    if scores.len() > 1 {
        let d = scores.drop_last();
        lemma_last_best(d);
        let k = last_best(d);
        assert forall|j: int| 0 <= j < scores.len() - 1 implies #[trigger] scores[j] == d[j] by {}
        assert(scores[k] == d[k]);
    }
}

/// The scores of a list of `i32` scores, as integers.
pub open spec fn int_scores(scores: Seq<i32>) -> Seq<int> {
    scores.map_values(|s: i32| s as int)
}

/// The move with the last highest score: `moves[k]` for the index `k` of
/// the last highest of `scores`, or `None` when there is no move.
pub fn pick_last_best(moves: &Vec<Move>, scores: &Vec<i32>) -> (r: Option<Move>)
    requires
        moves.len() == scores.len(),
    ensures
        moves.len() == 0 ==> r is None,
        moves.len() > 0 ==> r == Some(moves@[last_best(int_scores(scores@))]),
{
    if moves.len() == 0 {
        return None;
    }
    let mut best: usize = 0;
    let mut i: usize = 1;
    while i < moves.len()
        invariant
            1 <= i <= moves.len(),
            moves.len() == scores.len(),
            best == last_best(int_scores(scores@.take(i as int))),
            best < i,
        decreases moves.len() - i,
    {
        proof {
            assert(int_scores(scores@.take(i + 1)).drop_last() =~= int_scores(scores@.take(i as int)));
        }
        if scores[i] >= scores[best] {
            best = i;
        }
        i = i + 1;
    }
    assert(scores@.take(moves.len() as int) =~= scores@);
    Some(moves[best])
}

/// The evaluation, after each of `moves`, from the side of the opponent of
/// `color`: what a search of one ply scores each move.
pub open spec fn one_ply_scores(v: BoardView, color: u8, moves: Seq<(u16, crate::chess_move::MoveType)>, h: HeuristicParams) -> Seq<int> {
    moves.map_values(|m: (u16, crate::chess_move::MoveType)| evaluation(
        crate::movegenerator::after_move(v, m),
        opponent(color),
        h,
    ))
}

/// The chess engine: search depth, its color, evaluation weights and the
/// memory its transposition table may use.
pub struct Engine {
    depth: u32,
    color: u8,
    heuristics: HeuristicParams,
    available_memory_mb: usize,
    /// The milliseconds elapsed at each reading of the clock its searches
    /// made, in order.
    readings: Ghost<Seq<u128>>,
}

/// The settings of an engine.
pub ghost struct EngineView {
    pub depth: u32,
    pub color: u8,
    pub heuristics: HeuristicParams,
    pub available_memory_mb: usize,
}

impl View for Engine {
    type V = EngineView;

    closed spec fn view(&self) -> EngineView {
        EngineView {
            depth: self.depth,
            color: self.color,
            heuristics: self.heuristics,
            available_memory_mb: self.available_memory_mb,
        }
    }
}

/// Moves whose views are the legal moves are the legal moves as moves.
proof fn lemma_gen_legal(moves: Seq<Move>, v: BoardView, color: u8)
    requires
        views(moves) == legal_moves(v, color),
    ensures
        moves == gen_legal(v, color),
{
    reveal(gen_legal);
    assert forall|k: int| 0 <= k < moves.len() implies #[trigger] moves[k] == gen_legal(v, color)[k] by {
        assert(views(moves)[k] == moves[k]@);
        lemma_move_of(moves[k], moves[k]@);
    }
    assert(moves =~= gen_legal(v, color));
}

/// The scores of the root moves from the `i`-th on: each move is played
/// and searched one ply shallower, maximizing, for the opponent, with the
/// full window and the table and killer list the previous searches left.
pub open spec fn root_scores(
    z: ZobristView,
    h: HeuristicParams,
    v: BoardView,
    color: u8,
    depth: u32,
    moves: Seq<Move>,
    i: int,
    tt: Seq<Option<Entry>>,
    kl: Seq<(Move, i32)>,
) -> Seq<int>
    decreases moves.len() - i,
{
    if i < 0 || i >= moves.len() {
        Seq::empty()
    } else {
        let r = search_value(
            z,
            h,
            after_move(v, moves[i]@),
            MIN_SCORE,
            MAX_SCORE,
            true,
            opponent(color),
            (depth - 1) as u32,
            tt,
            kl,
        );
        seq![r.0.score as int] + root_scores(z, h, v, color, depth, moves, i + 1, r.1, r.2)
    }
}

/// The move an engine with settings `e` chooses on `v` when its clock
/// never runs out: the last legal move with the highest root score, the
/// searches sharing one table (empty at first, of the engine's size) and
/// one killer list, with the board's keys; `None` without legal moves.
#[verifier::opaque]
pub open spec fn engine_choice(e: EngineView, v: BoardView) -> Option<Move> {
    let moves = gen_legal(v, e.color);
    if moves.len() == 0 {
        None
    } else {
        Some(
            moves[last_best(
                root_scores(
                    keys_for(v),
                    e.heuristics,
                    v,
                    e.color,
                    e.depth,
                    moves,
                    0,
                    empty_table(table_slots(e.available_memory_mb)),
                    Seq::empty(),
                ),
            )],
        )
    }
}

/// The settings under which an engine can search: a depth of at least one,
/// a playing color, weights that cannot overflow an evaluation, and a
/// memory size whose byte count fits in a `usize`.
pub open spec fn engine_ok(e: EngineView) -> bool {
    &&& e.depth >= 1
    &&& is_color(e.color)
    &&& params_bounded(e.heuristics)
    &&& e.available_memory_mb * 1024 * 1024 <= usize::MAX
}

impl Engine {
    pub fn new(depth: u32, color: u8, heuristics: HeuristicParams, available_memory_mb: usize) -> (r: Engine)
        ensures
            r@ == (EngineView { depth, color, heuristics, available_memory_mb }),
            r.clock_readings() == Seq::<u128>::empty(),
    {
        Engine { depth, color, heuristics, available_memory_mb, readings: Ghost(Seq::empty()) }
    }

    /// The clock readings the engine's searches made, in order.
    pub closed spec fn clock_readings(&self) -> Seq<u128> {
        self.readings@
    }

    /// A legal move for the engine's color on `chessboard`, or `None` when
    /// it has none. Each legal move is searched to the engine's depth and the
    /// last one with the highest score is chosen (see [`pick_last_best`]); at
    /// depth one a move's score is the evaluation of the position it leads
    /// to, from the opponent's side. The clock readings of the search are
    /// added to the engine's record; when none of them exceeded the time
    /// limit, the move is [`engine_choice`].
    pub fn get_best_move(&mut self, chessboard: Chessboard) -> (r: Option<Move>)
        requires
            engine_ok(old(self)@),
            en_passant_in_range(chessboard@, old(self)@.color),
        ensures
            final(self)@ == old(self)@,
            r is None <==> legal_moves(chessboard@, old(self)@.color).len() == 0,
            r matches Some(m) ==> legal_moves(chessboard@, old(self)@.color).contains(m@),
            old(self)@.depth == 1 && legal_moves(chessboard@, old(self)@.color).len() > 0 ==> (r matches Some(m)
                && m@ == legal_moves(chessboard@, old(self)@.color)[last_best(
                one_ply_scores(
                    chessboard@,
                    old(self)@.color,
                    legal_moves(chessboard@, old(self)@.color),
                    old(self)@.heuristics,
                ),
            )]),
            extends(final(self).clock_readings(), old(self).clock_readings()),
            !over_limit_from(final(self).clock_readings(), old(self).clock_readings().len() as int) ==> r
                == engine_choice(old(self)@, chessboard@),
    {
        self.start_single_search(chessboard)
    }

    #[verifier::rlimit(100)]
    fn start_single_search(&mut self, chessboard: Chessboard) -> (r: Option<Move>)
        requires
            engine_ok(old(self)@),
            en_passant_in_range(chessboard@, old(self)@.color),
        ensures
            final(self)@ == old(self)@,
            r is None <==> legal_moves(chessboard@, old(self)@.color).len() == 0,
            r matches Some(m) ==> legal_moves(chessboard@, old(self)@.color).contains(m@),
            old(self)@.depth == 1 && legal_moves(chessboard@, old(self)@.color).len() > 0 ==> (r matches Some(m)
                && m@ == legal_moves(chessboard@, old(self)@.color)[last_best(
                one_ply_scores(
                    chessboard@,
                    old(self)@.color,
                    legal_moves(chessboard@, old(self)@.color),
                    old(self)@.heuristics,
                ),
            )]),
            extends(final(self).clock_readings(), old(self).clock_readings()),
            !over_limit_from(final(self).clock_readings(), old(self).clock_readings().len() as int) ==> r
                == engine_choice(old(self)@, chessboard@),
    {
        let start = now();
        let mut position = chessboard;
        let moves = generate_moves(&mut position, self.color);
        proof {
            lemma_gen_legal(moves@, chessboard@, self.color);
        }
        if moves.len() == 0 {
            proof {
                reveal(engine_choice);
            }
            return None;
        }
        let ghost legal = legal_moves(chessboard@, self.color);
        proof {
            lemma_ordered_legal(moves@, moves@, chessboard@, self.color);
        }
        let mut search = Search {
            transposition_table: TranspositionTable::new(self.available_memory_mb),
            killer_moves: Vec::new(),
            heuristics_params: self.heuristics,
            start_time: start,
            zobrist: ZobristTable::new(chessboard),
            readings: Ghost(self.readings@),
        };
        let ghost z = keys_for(chessboard@);
        let ghost tt_init = search.transposition_table@;
        let ghost r_e = self.readings@;
        let ghost all_scores = root_scores(
            z,
            self.heuristics,
            chessboard@,
            self.color,
            self.depth,
            moves@,
            0,
            tt_init,
            Seq::empty(),
        );
        let ghost mut timed = false;
        let next_color = if self.color == WHITE {
            BLACK
        } else {
            WHITE
        };
        let ghost h = self.heuristics;
        let mut best_score: i32 = MIN_SCORE;
        let mut scores: Vec<i32> = Vec::new();
        let mut i: usize = 0;
        while i < moves.len()
            invariant
                i <= moves.len(),
                search.wf(),
                search.heuristics_params == h,
                h == self.heuristics,
                engine_ok(self@),
                self@ == old(self)@,
                next_color == opponent(self.color),
                views(moves@) == legal,
                legal == legal_moves(chessboard@, self.color),
                forall|k: int| 0 <= k < moves@.len() ==> playable(#[trigger] moves@[k]@) && legal.contains(moves@[k]@),
                scores@.len() == i,
                self.depth == 1 ==> forall|k: int|
                    0 <= k < i ==> #[trigger] int_scores(scores@)[k] == one_ply_scores(
                        chessboard@,
                        self.color,
                        legal,
                        h,
                    )[k],
                score_ok(best_score),
                search.zobrist@ == z,
                z == keys_for(chessboard@),
                r_e == self.readings@,
                r_e == old(self).readings@,
                extends(search.readings@, r_e),
                timed == over_limit_from(search.readings@, r_e.len() as int),
                moves@ == gen_legal(chessboard@, self.color),
                all_scores == root_scores(
                    z,
                    h,
                    chessboard@,
                    self.color,
                    self.depth,
                    moves@,
                    0,
                    tt_init,
                    Seq::empty(),
                ),
                !timed ==> int_scores(scores@) + root_scores(
                    z,
                    h,
                    chessboard@,
                    self.color,
                    self.depth,
                    moves@,
                    i as int,
                    search.transposition_table@,
                    search.killer_moves@,
                ) == all_scores,
            decreases moves.len() - i,
        {
            let mov = moves[i];
            let mut next = chessboard;
            next.move_piece(mov.get_piece_type(), mov.get_color(), &mov);
            proof {
                crate::chessboard::lemma_move_piece_en_passant(
                    chessboard@,
                    crate::movegenerator::mover_piece(mov@),
                    crate::movegenerator::mover_color(mov@),
                    mov@,
                );
                assert(views(moves@)[i as int] == mov@);
            }
            let ghost tt_i = search.transposition_table@;
            let ghost kl_i = search.killer_moves@;
            let ghost rd_i = search.readings@;
            let (result, child_timed_out, _) = search.alpha_beta(
                next,
                MIN_SCORE,
                MAX_SCORE,
                true,
                next_color,
                self.depth - 1,
            );
            proof {
                lemma_over_limit_split(rd_i, search.readings@, r_e.len() as int);
                if child_timed_out@ {
                    timed = true;
                }
            }
            best_score = if best_score > result.score {
                best_score
            } else {
                result.score
            };
            let ghost before = scores@;
            scores.push(result.score);
            proof {
                if !timed {
                    assert(next@ == crate::movegenerator::after_move(chessboard@, moves@[i as int]@));
                    assert(int_scores(scores@) =~= int_scores(before) + seq![result.score as int]);
                    assert(root_scores(z, h, chessboard@, self.color, self.depth, moves@, i as int, tt_i, kl_i)
                        == seq![result.score as int] + root_scores(
                        z,
                        h,
                        chessboard@,
                        self.color,
                        self.depth,
                        moves@,
                        i + 1,
                        search.transposition_table@,
                        search.killer_moves@,
                    ));
                    assert(int_scores(scores@) + root_scores(
                        z,
                        h,
                        chessboard@,
                        self.color,
                        self.depth,
                        moves@,
                        i + 1,
                        search.transposition_table@,
                        search.killer_moves@,
                    ) =~= int_scores(before) + root_scores(
                        z,
                        h,
                        chessboard@,
                        self.color,
                        self.depth,
                        moves@,
                        i as int,
                        tt_i,
                        kl_i,
                    ));
                }
                if self.depth == 1 {
                    assert(next@ == crate::movegenerator::after_move(chessboard@, legal[i as int]));
                    assert(result.score == evaluation(next@, opponent(self.color), h));
                    assert(one_ply_scores(chessboard@, self.color, legal, h)[i as int] == evaluation(
                        crate::movegenerator::after_move(chessboard@, legal[i as int]),
                        opponent(self.color),
                        h,
                    ));
                    assert(int_scores(scores@)[i as int] == result.score as int);
                    assert forall|k: int| 0 <= k < i + 1 implies #[trigger] int_scores(scores@)[k]
                        == one_ply_scores(chessboard@, self.color, legal, h)[k] by {
                        if k < i {
                            assert(scores@[k] == before[k]);
                            assert(int_scores(before)[k] == int_scores(scores@)[k]);
                        }
                    }
                }
            }
            i = i + 1;
        }
        assert(legal.len() == moves@.len());
        proof {
            if self.depth == 1 {
                assert(int_scores(scores@) =~= one_ply_scores(chessboard@, self.color, legal, h));
            }
        }
        self.readings = Ghost(search.readings@);
        proof {
            if !timed {
                assert(int_scores(scores@) =~= all_scores);
            }
        }
        let best = pick_last_best(&moves, &scores);
        proof {
            reveal(engine_choice);
        }
        proof {
            if moves@.len() > 0 {
                lemma_last_best(int_scores(scores@));
                let k = last_best(int_scores(scores@));
                assert(views(moves@)[k] == moves@[k]@);
            }
        }
        best
    }
}

} // verus!
