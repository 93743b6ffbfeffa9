//! Zobrist hashing: one random key per (piece, color, square), for the side
//! to move, for each castling right and for each en passant index; a
//! position hashes to the XOR of the keys of its features.
use vstd::prelude::*;

verus! {

use rand::rngs::StdRng;
use rand::{Rng, SeedableRng};
use crate::bits::{low_index, without_low, lemma_low_index, lemma_low_index_single};
use crate::chess_move::{Move, MoveType, from_index_of, to_index_of, piece_type_of, color_bit_of};
use crate::chessboard::{Chessboard, BoardView, mask_of, with_mask, relocate, piece_slot};
use crate::constants::{PAWN, ROOK, WHITE, BLACK, is_piece_type, is_color, opponent};
use crate::movegenerator::{mover_color, mover_piece, after_move};

#[verifier::external_type_specification]
#[verifier::external_body]
pub struct ExStdRng(StdRng);

/// The first `n` values that rand's `StdRng`, seeded from `seed` by
/// `SeedableRng::seed_from_u64`, yields through `Rng::random::<u64>`.
pub uninterp spec fn std_rng_u64s(seed: u64, n: usize) -> Seq<u64>;

/// rand's `StdRng::seed_from_u64(seed)` followed by `n` draws of
/// `Rng::random::<u64>` (`random_iter` draws one `random` value per item):
/// the `n` values, named `std_rng_u64s(seed, n)`, whatever they are.
#[verifier::external_body]
fn seeded_u64s(seed: u64, n: usize) -> (r: Vec<u64>)
    ensures
        r@ == std_rng_u64s(seed, n),
        r@.len() == n,
{
    StdRng::seed_from_u64(seed).random_iter::<u64>().take(n).collect()
}

/// The fixed seed of the key table.
pub const ZOBRIST_SEED: u64 = 69u64;

/// How many keys a table draws: 768 piece keys, one side-to-move key, four
/// castling keys and sixteen en passant keys.
pub const KEY_COUNT: usize = 789usize;

/// The keys a table draws, in the order it draws them.
pub open spec fn key_stream() -> Seq<u64> {
    std_rng_u64s(ZOBRIST_SEED, KEY_COUNT)
}

pub struct ZobristTable {
    /// The board the table was made for.
    board: Chessboard,
    /// Key of piece type `p` (1..=6), color index `c` (0 white, 1 black) and
    /// square `s` at index `((p - 1) * 2 + c) * 64 + s`.
    piece_keys: Vec<u64>,
    side_to_move: u64,
    castling_keys: [u64; 4],
    en_passant_keys: [u64; 16],
}

/// The keys of a table.
pub ghost struct ZobristView {
    pub board: BoardView,
    pub piece_keys: Seq<u64>,
    pub side_to_move: u64,
    pub castling_keys: Seq<u64>,
    pub en_passant_keys: Seq<u64>,
}

impl View for ZobristTable {
    type V = ZobristView;

    closed spec fn view(&self) -> ZobristView {
        ZobristView {
            board: self.board@,
            piece_keys: self.piece_keys@,
            side_to_move: self.side_to_move,
            castling_keys: self.castling_keys@,
            en_passant_keys: self.en_passant_keys@,
        }
    }
}

/// The key slot of a piece type (1..=6), color index (0..2) and square.
pub open spec fn key_index(piece_type: int, color_index: int, square: int) -> int {
    ((piece_type - 1) * 2 + color_index) * 64 + square
}

/// The color index of the key table: 0 for white, 1 otherwise.
pub open spec fn color_index(color: u8) -> int {
    if color == WHITE {
        0
    } else {
        1
    }
}

/// `h` with the keys of the squares of `bb` folded in, lowest square first.
pub open spec fn xor_squares(z: ZobristView, h: u64, bb: u64, piece_type: int, ci: int) -> u64
    decreases bb,
{
    if bb == 0 {
        h
    } else {
        proof {
            crate::bits::lemma_without_low_smaller(bb);
        }
        xor_squares(
            z,
            h ^ z.piece_keys[key_index(piece_type, ci, low_index(bb) as int)],
            without_low(bb),
            piece_type,
            ci,
        )
    }
}

/// `h` with the keys of the pieces of types `p`..=6 folded in, white then
/// black for each type.
pub open spec fn xor_pieces(z: ZobristView, h: u64, v: BoardView, p: u8) -> u64
    decreases 7 - p,
{
    if p < 1 || p > 6 {
        h
    } else {
        let hw = xor_squares(z, h, mask_of(v, p, WHITE), p as int, 0);
        let hb = xor_squares(z, hw, mask_of(v, p, BLACK), p as int, 1);
        xor_pieces(z, hb, v, (p + 1) as u8)
    }
}

/// `h` with the keys of the castling rights `i`..4 held in `rights` folded in.
pub open spec fn xor_castling(z: ZobristView, h: u64, rights: u8, i: int) -> u64
    decreases 4 - i,
{
    if i < 0 || i >= 4 {
        h
    } else {
        let h2 = if (rights >> (i as u8)) & 1u8 != 0 {
            h ^ z.castling_keys[i]
        } else {
            h
        };
        xor_castling(z, h2, rights, i + 1)
    }
}

/// The hash of a position with `color_to_move` to move: the XOR of the keys
/// of every piece on its square, of the side key when black is to move, of
/// every castling right held, and of the en passant index when there is one.
pub open spec fn hash_spec(z: ZobristView, v: BoardView, color_to_move: u8) -> u64 {
    let hp = xor_pieces(z, 0u64, v, 1);
    let hs = if color_to_move == BLACK {
        hp ^ z.side_to_move
    } else {
        hp
    };
    let hc = xor_castling(z, hs, v.castling, 0);
    if v.en_passant != 0 {
        hc ^ z.en_passant_keys[v.en_passant as int]
    } else {
        hc
    }
}

/// The table a board gets: its keys drawn in order from the generator
/// seeded with the fixed seed.
pub open spec fn keys_for(board: BoardView) -> ZobristView {
    ZobristView {
        board,
        piece_keys: key_stream().subrange(0, 768),
        side_to_move: key_stream()[768],
        castling_keys: key_stream().subrange(769, 773),
        en_passant_keys: key_stream().subrange(773, KEY_COUNT as int),
    }
}

/// A well-formed table holds one key per (piece type, color, square).
pub open spec fn table_ok(z: ZobristView) -> bool {
    z.piece_keys.len() == 768 && z.castling_keys.len() == 4 && z.en_passant_keys.len() == 16
}

/// The key of a piece type, color and square of a table.
pub open spec fn piece_key(z: ZobristView, piece_type: int, color: u8, square: int) -> u64 {
    z.piece_keys[key_index(piece_type, color_index(color), square)]
}

/// The hash after the incremental update for `mv`, special moves taken into
/// account: the moving piece is toggled out of its origin and into its
/// destination; en passant also toggles the captured pawn; castling also
/// toggles the rook out and in; a double push also toggles the en passant
/// key of its file; a promotion toggles the pawn out and the promoted piece
/// in.
pub open spec fn update_spec(z: ZobristView, mv: (u16, MoveType), h: u64) -> u64 {
    let color = mover_color(mv);
    let pt = piece_type_of(mv.0) as int;
    let from = from_index_of(mv.0) as int;
    let to = to_index_of(mv.0) as int;
    let moved = (h ^ piece_key(z, pt, color, from)) ^ piece_key(z, pt, color, to);
    match mv.1 {
        MoveType::Normal => moved,
        MoveType::EnPassant { captured_square } => moved ^ piece_key(
            z,
            PAWN as int,
            opponent(color),
            low_index(captured_square) as int,
        ),
        MoveType::Castling { rook_from, rook_to } => (moved ^ piece_key(
            z,
            ROOK as int,
            color,
            low_index(rook_from) as int,
        )) ^ piece_key(z, ROOK as int, color, low_index(rook_to) as int),
        MoveType::Promotion { promoted_piece } => (h ^ piece_key(z, PAWN as int, color, from)) ^ piece_key(
            z,
            promoted_piece as int,
            color,
            to,
        ),
        MoveType::DoublePawnPush => moved ^ z.en_passant_keys[(from % 8) + 1],
    }
}

/// The squares and piece types an incremental update reads are in range.
pub open spec fn update_ok(mv: (u16, MoveType)) -> bool {
    let pt = piece_type_of(mv.0) as u8;
    match mv.1 {
        MoveType::Normal => is_piece_type(pt),
        MoveType::EnPassant { captured_square } => is_piece_type(pt) && captured_square != 0,
        MoveType::Castling { rook_from, rook_to } => is_piece_type(pt) && rook_from != 0 && rook_to != 0,
        MoveType::Promotion { promoted_piece } => is_piece_type(promoted_piece),
        MoveType::DoublePawnPush => is_piece_type(pt),
    }
}

/// XOR-ing the same key twice gives back the hash: every toggle undoes itself.
pub proof fn lemma_toggle_twice(h: u64, key: u64)
    ensures
        (h ^ key) ^ key == h,
{
    lemma_xor_identities(h, key, 0u64, 0u64, 0u64);
    assert((h ^ key) ^ key == h);
}

impl ZobristTable {
    /// A table of keys drawn from a generator seeded with the fixed seed, for
    /// `board`: the piece keys are the first 768 values drawn, then come the
    /// side-to-move key, the four castling keys and the sixteen en passant
    /// keys.
    pub fn new(board: Chessboard) -> (r: ZobristTable)
        ensures
            table_ok(r@),
            r@.board == board@,
            r@.piece_keys == key_stream().subrange(0, 768),
            r@.side_to_move == key_stream()[768],
            r@.castling_keys == key_stream().subrange(769, 773),
            r@.en_passant_keys == key_stream().subrange(773, KEY_COUNT as int),
            r@ == keys_for(board@),
    {
        let keys = seeded_u64s(ZOBRIST_SEED, KEY_COUNT);
        let mut piece_keys: Vec<u64> = Vec::new();
        let mut i: usize = 0;
        while i < 768
            invariant
                i <= 768,
                keys@ == key_stream(),
                keys@.len() == KEY_COUNT,
                piece_keys@ == key_stream().subrange(0, i as int),
            decreases 768 - i,
        {
            piece_keys.push(keys[i]);
            i = i + 1;
            assert(piece_keys@ =~= key_stream().subrange(0, i as int));
        }
        let side_to_move = keys[768];
        let mut castling_keys = [0u64; 4];
        let mut c: usize = 0;
        while c < 4
            invariant
                c <= 4,
                keys@ == key_stream(),
                keys@.len() == KEY_COUNT,
                forall|j: int| 0 <= j < c ==> castling_keys@[j] == key_stream()[769 + j],
            decreases 4 - c,
        {
            castling_keys[c] = keys[769 + c];
            c = c + 1;
        }
        let mut en_passant_keys = [0u64; 16];
        let mut e: usize = 0;
        while e < 16
            invariant
                e <= 16,
                keys@ == key_stream(),
                keys@.len() == KEY_COUNT,
                forall|j: int| 0 <= j < e ==> en_passant_keys@[j] == key_stream()[773 + j],
            decreases 16 - e,
        {
            en_passant_keys[e] = keys[773 + e];
            e = e + 1;
        }
        assert(castling_keys@ =~= key_stream().subrange(769, 773));
        assert(en_passant_keys@ =~= key_stream().subrange(773, KEY_COUNT as int));
        ZobristTable { board, piece_keys, side_to_move, castling_keys, en_passant_keys }
    }

    /// `hash` with the keys of the squares of `bb` folded in.
    fn fold_squares(&self, hash: u64, bb: u64, piece_type: u8, ci: usize) -> (r: u64)
        requires
            table_ok(self@),
            1 <= piece_type <= 6,
            ci < 2,
        ensures
            r == xor_squares(self@, hash, bb, piece_type as int, ci as int),
    {
        let ghost z = self@;
        let mut h = hash;
        let mut m = bb;
        let piece_idx = (piece_type - 1) as usize;
        while m != 0
            invariant
                z == self@,
                table_ok(z),
                1 <= piece_type <= 6,
                ci < 2,
                piece_idx == piece_type - 1,
                xor_squares(z, h, m, piece_type as int, ci as int) == xor_squares(z, hash, bb, piece_type as int, ci as int),
            decreases m,
        {
            proof {
                lemma_low_index(m);
            }
            let sq = m.trailing_zeros() as usize;
            h = h ^ self.piece_keys[(piece_idx * 2 + ci) * 64 + sq];
            m = m & (m - 1);
        }
        h
    }

    /// The hash of `board` with `color_to_move` to move.
    pub fn hash(&self, board: &Chessboard, color_to_move: u8) -> (r: u64)
        requires
            table_ok(self@),
            board@.en_passant < 16,
        ensures
            r == hash_spec(self@, board@, color_to_move),
    {
        let ghost z = self@;
        let ghost v = board@;
        let mut hash = 0u64;
        let mut piece_type: u8 = 1;
        while piece_type <= 6
            invariant
                1 <= piece_type <= 7,
                z == self@,
                v == board@,
                table_ok(z),
                xor_pieces(z, hash, v, piece_type) == xor_pieces(z, 0u64, v, 1),
            decreases 7 - piece_type,
        {
            let white_bb = board.get_piece_mask(piece_type, WHITE);
            hash = self.fold_squares(hash, white_bb, piece_type, 0);
            let black_bb = board.get_piece_mask(piece_type, BLACK);
            hash = self.fold_squares(hash, black_bb, piece_type, 1);
            piece_type = piece_type + 1;
        }
        if color_to_move == BLACK {
            hash = hash ^ self.side_to_move;
        }
        let ghost hs = hash;
        let castling = board.get_castling_rights();
        let mut i: usize = 0;
        while i < 4
            invariant
                i <= 4,
                z == self@,
                table_ok(z),
                castling == v.castling,
                xor_castling(z, hash, castling, i as int) == xor_castling(z, hs, castling, 0),
            decreases 4 - i,
        {
            if (castling >> (i as u8)) & 1u8 != 0 {
                hash = hash ^ self.castling_keys[i];
            }
            i = i + 1;
        }
        let ep_data = board.get_en_passant();
        if ep_data != 0 {
            let square = ep_data as usize;
            hash = hash ^ self.en_passant_keys[square];
        }
        hash
    }

    /// XORs the key of a piece type (1..=6) and color on `square` (0..64)
    /// into `hash`.
    pub fn toggle_piece(&self, hash: &mut u64, piece_type: u8, color: u8, square: usize)
        requires
            table_ok(self@),
            is_piece_type(piece_type),
            square < 64,
        ensures
            *final(hash) == *old(hash) ^ self@.piece_keys[key_index(piece_type as int, color_index(color), square as int)],
    {
        let piece_idx = (piece_type - 1) as usize;
        let color_idx: usize = if color == WHITE {
            0
        } else {
            1
        };
        *hash = *hash ^ self.piece_keys[(piece_idx * 2 + color_idx) * 64 + square];
    }

    /// Updates `hash` for the pieces that `mv` moves, special moves taken
    /// into account (see [`update_spec`]).
    pub fn update(mv: Move, hash: &mut u64, zobrist: &ZobristTable)
        requires
            table_ok(zobrist@),
            update_ok(mv@),
        ensures
            *final(hash) == update_spec(zobrist@, mv@, *old(hash)),
    {
        proof {
            crate::chess_move::lemma_fields_in_range(mv@.0);
            lemma_low_index_single(from_index_of(mv@.0) as u64);
            lemma_low_index_single(to_index_of(mv@.0) as u64);
        }
        if let MoveType::Promotion { promoted_piece } = mv.move_type() {
            zobrist.toggle_piece(
                hash,
                PAWN,
                mv.get_color(),
                mv.get_from_mask().trailing_zeros() as usize,
            );
            zobrist.toggle_piece(
                hash,
                promoted_piece,
                mv.get_color(),
                mv.get_to_mask().trailing_zeros() as usize,
            );
            return ;
        }
        zobrist.toggle_piece(
            hash,
            mv.get_piece_type(),
            mv.get_color(),
            mv.get_from_mask().trailing_zeros() as usize,
        );
        zobrist.toggle_piece(
            hash,
            mv.get_piece_type(),
            mv.get_color(),
            mv.get_to_mask().trailing_zeros() as usize,
        );
        match mv.move_type() {
            MoveType::EnPassant { captured_square } => {
                proof {
                    lemma_low_index(captured_square);
                }
                zobrist.toggle_piece(
                    hash,
                    PAWN,
                    if mv.get_color() == WHITE {
                        BLACK
                    } else {
                        WHITE
                    },
                    captured_square.trailing_zeros() as usize,
                );
            },
            MoveType::Castling { rook_from, rook_to } => {
                proof {
                    lemma_low_index(rook_from);
                    lemma_low_index(rook_to);
                }
                zobrist.toggle_piece(hash, ROOK, mv.get_color(), rook_from.trailing_zeros() as usize);
                zobrist.toggle_piece(hash, ROOK, mv.get_color(), rook_to.trailing_zeros() as usize);
            },
            MoveType::DoublePawnPush => {
                let file = (mv.get_from_mask().trailing_zeros() % 8 + 1) as u8;
                zobrist.toggle_en_passant(hash, file as usize);
            },
            _ => {},
        }
    }

    /// XORs the side-to-move key into `hash`.
    pub fn toggle_side(&self, hash: &mut u64)
        ensures
            *final(hash) == *old(hash) ^ self@.side_to_move,
    {
        *hash = *hash ^ self.side_to_move;
    }

    /// XORs the key of castling right `right_index` (0..4) into `hash`.
    pub fn toggle_castling(&self, hash: &mut u64, right_index: usize)
        requires
            table_ok(self@),
            right_index < 4,
        ensures
            *final(hash) == *old(hash) ^ self@.castling_keys[right_index as int],
    {
        *hash = *hash ^ self.castling_keys[right_index];
    }

    /// XORs the key of en passant index `square` (0..16) into `hash`.
    pub fn toggle_en_passant(&self, hash: &mut u64, square: usize)
        requires
            table_ok(self@),
            square < 16,
        ensures
            *final(hash) == *old(hash) ^ self@.en_passant_keys[square as int],
    {
        *hash = *hash ^ self.en_passant_keys[square];
    }
}

/// Rearrangements of XORs of up to five keys.
proof fn lemma_xor_identities(a: u64, b: u64, c: u64, d: u64, e: u64)
    ensures
        (a ^ b) ^ b == a,
        a == (b ^ a) ^ b,
        (a ^ b) ^ c == a ^ (b ^ c),
        a ^ b == b ^ a,
        0u64 ^ a == a,
        a ^ 0u64 == a,
        b ^ c == (a ^ c) ^ (a ^ b),
        ((a ^ b) ^ c) ^ d == a ^ (((0u64 ^ b) ^ c) ^ d),
        ((a ^ b) ^ c) ^ (d ^ 0u64) == ((a ^ c) ^ d) ^ b,
        (a ^ (c ^ b)) ^ (d ^ 0u64) == ((a ^ c) ^ d) ^ b,
        (a ^ c) ^ (d ^ b) == ((a ^ c) ^ d) ^ b,
        (a ^ b) ^ c == a ^ ((0u64 ^ b) ^ c),
        a ^ c == a ^ (0u64 ^ c),
        (a ^ b) ^ c == (a ^ c) ^ b,
        ((a ^ b) ^ c) ^ d == ((a ^ c) ^ d) ^ b,
        ((a ^ b) ^ c) ^ d == (a ^ d) ^ (b ^ c),
        (((a ^ b) ^ c) ^ d) ^ e == (a ^ (d ^ e)) ^ (b ^ c),
{
    assert((a ^ b) ^ b == a && a == (b ^ a) ^ b && (a ^ b) ^ c == a ^ (b ^ c) && a ^ b == b ^ a && 0u64 ^ a == a
        && a ^ 0u64 == a && b ^ c == (a ^ c) ^ (a ^ b) && ((a ^ b) ^ c) ^ d == a ^ (((0u64 ^ b) ^ c) ^ d) && ((a
        ^ b) ^ c) ^ (d ^ 0u64) == ((a ^ c) ^ d) ^ b && (a ^ (c ^ b)) ^ (d ^ 0u64) == ((a ^ c) ^ d) ^ b && (a
        ^ c) ^ (d ^ b) == ((a ^ c) ^ d) ^ b && (a ^ b) ^ c == a ^ ((0u64 ^ b) ^ c) && a ^ c == a ^ (0u64 ^ c)
        && (a ^ b) ^ c == (a ^ c) ^ b && ((a ^ b) ^ c) ^ d == ((a ^ c) ^ d) ^ b && ((a ^ b) ^ c) ^ d == (a ^ d)
        ^ (b ^ c) && (((a ^ b) ^ c) ^ d) ^ e == (a ^ (d ^ e)) ^ (b ^ c)) by (bit_vector);
}

/// XOR is associative and commutative, with 0 as its unit.
proof fn lemma_xor_algebra(a: u64, b: u64, c: u64)
    ensures
        (a ^ b) ^ c == a ^ (b ^ c),
        a ^ b == b ^ a,
        0u64 ^ a == a,
        a ^ 0u64 == a,
{
    lemma_xor_identities(a, b, c, 0u64, 0u64);
}

/// Folding keys into `h` is XOR-ing `h` with the keys folded into 0.
proof fn lemma_xor_squares_shift(z: ZobristView, h: u64, bb: u64, pt: int, ci: int)
    ensures
        xor_squares(z, h, bb, pt, ci) == h ^ xor_squares(z, 0u64, bb, pt, ci),
    decreases bb,
{
    if bb == 0 {
        lemma_xor_algebra(h, 0u64, 0u64);
    } else {
        crate::bits::lemma_without_low_smaller(bb);
        let k = z.piece_keys[key_index(pt, ci, low_index(bb) as int)];
        let wl = without_low(bb);
        lemma_xor_squares_shift(z, h ^ k, wl, pt, ci);
        lemma_xor_squares_shift(z, 0u64 ^ k, wl, pt, ci);
        let x = xor_squares(z, 0u64, wl, pt, ci);
        lemma_xor_algebra(h, k, x);
        lemma_xor_algebra(k, 0u64, 0u64);
    }
}

/// The index of the lowest set bit is the only set bit with no set bit
/// below it.
proof fn lemma_low_index_unique(x: u64, t: u64)
    requires
        t < 64,
        (x >> t) & 1u64 == 1u64,
        x << ((64 - t) as u64) == 0,
    ensures
        low_index(x) == t,
{
    vstd::std_specs::bits::axiom_u64_trailing_zeros(x);
    let u = low_index(x) as u64;
    if u < t {
        assert(x << ((64 - t) as u64) == 0 && u < t && t < 64 ==> (x >> u) & 1u64 == 0u64) by (bit_vector);
    } else if u > t {
        assert((x >> t) & 1u64 == 0u64);
    }
}

/// Clearing a set bit other than the lowest keeps the lowest bit, and
/// commutes with dropping it.
proof fn lemma_clear_other(bb: u64, s: u64)
    requires
        s < 64,
        (bb >> s) & 1u64 == 1u64,
        s != low_index(bb),
    ensures
        bb & !(1u64 << s) != 0,
        low_index(bb & !(1u64 << s)) == low_index(bb),
        without_low(bb & !(1u64 << s)) == without_low(bb) & !(1u64 << s),
        (without_low(bb) >> s) & 1u64 == 1u64,
{
    vstd::std_specs::bits::axiom_u64_trailing_zeros(bb);
    let t = low_index(bb) as u64;
    assert(t < 64);
    assert(bb << ((64 - t) as u64) == 0);
    let x = bb & !(1u64 << s);
    assert(t < 64 && s < 64 && s != t && (bb >> t) & 1u64 == 1u64 && bb << ((64 - t) as u64) == 0 && (bb
        >> s) & 1u64 == 1u64 ==> ((bb & !(1u64 << s)) >> t) & 1u64 == 1u64 && (bb & !(1u64 << s)) << ((64
        - t) as u64) == 0 && (bb & !(1u64 << s)) != 0 && (bb & !(1u64 << s)) & (((bb & !(1u64 << s)) - 1) as u64)
        == (bb & ((bb - 1) as u64)) & !(1u64 << s) && ((bb & ((bb - 1) as u64)) >> s) & 1u64 == 1u64)
        by (bit_vector);
    lemma_low_index_unique(x, t);
}

/// The keys folded for a bitboard are the key of any one of its squares
/// XOR the keys of the rest.
proof fn lemma_xor_squares_remove(z: ZobristView, bb: u64, s: u64, pt: int, ci: int)
    requires
        s < 64,
        (bb >> s) & 1u64 == 1u64,
    ensures
        xor_squares(z, 0u64, bb, pt, ci) == z.piece_keys[key_index(pt, ci, s as int)] ^ xor_squares(
            z,
            0u64,
            bb & !(1u64 << s),
            pt,
            ci,
        ),
    decreases bb,
{
    assert(bb != 0) by {
        assert((bb >> s) & 1u64 == 1u64 ==> bb != 0) by (bit_vector);
    }
    crate::bits::lemma_low_index(bb);
    let t = low_index(bb) as u64;
    let kt = z.piece_keys[key_index(pt, ci, t as int)];
    let ks = z.piece_keys[key_index(pt, ci, s as int)];
    let wl = without_low(bb);
    lemma_xor_squares_shift(z, 0u64 ^ kt, wl, pt, ci);
    lemma_xor_algebra(kt, 0u64, 0u64);
    if s == t {
        crate::bits::lemma_clear_low(bb);
    } else {
        lemma_clear_other(bb, s);
        let x = bb & !(1u64 << s);
        lemma_xor_squares_remove(z, wl, s, pt, ci);
        lemma_xor_squares_shift(z, 0u64 ^ kt, without_low(x), pt, ci);
        let rest = xor_squares(z, 0u64, wl & !(1u64 << s), pt, ci);
        lemma_xor_algebra(kt, ks, rest);
        lemma_xor_algebra(ks, kt, rest);
        lemma_xor_algebra(kt, ks, 0u64);
    }
}

/// Moving a piece from `f` to an empty square `t` of its bitboard changes
/// the folded keys by the keys of both squares.
proof fn lemma_xor_squares_move(z: ZobristView, bb: u64, f: u64, t: u64, pt: int, ci: int)
    requires
        f < 64,
        t < 64,
        (bb >> f) & 1u64 == 1u64,
        (bb >> t) & 1u64 == 0u64,
    ensures
        xor_squares(z, 0u64, (bb & !(1u64 << f)) | (1u64 << t), pt, ci) == xor_squares(z, 0u64, bb, pt, ci)
            ^ (z.piece_keys[key_index(pt, ci, f as int)] ^ z.piece_keys[key_index(pt, ci, t as int)]),
{
    let moved = (bb & !(1u64 << f)) | (1u64 << t);
    assert(f < 64 && t < 64 && (bb >> f) & 1u64 == 1u64 && (bb >> t) & 1u64 == 0u64 ==> (((bb & !(1u64 << f))
        | (1u64 << t)) >> t) & 1u64 == 1u64 && ((bb & !(1u64 << f)) | (1u64 << t)) & !(1u64 << t) == bb & !(
    1u64 << f)) by (bit_vector);
    lemma_xor_squares_remove(z, moved, t, pt, ci);
    lemma_xor_squares_remove(z, bb, f, pt, ci);
    let kf = z.piece_keys[key_index(pt, ci, f as int)];
    let kt = z.piece_keys[key_index(pt, ci, t as int)];
    let rest = xor_squares(z, 0u64, bb & !(1u64 << f), pt, ci);
    lemma_xor_identities(kf, kt, rest, 0u64, 0u64);
    assert(kt ^ rest == (kf ^ rest) ^ (kf ^ kt));
}

/// Folding the pieces' keys into `h` is XOR-ing `h` with them folded into 0.
proof fn lemma_xor_pieces_shift(z: ZobristView, h: u64, v: BoardView, p: u8)
    ensures
        xor_pieces(z, h, v, p) == h ^ xor_pieces(z, 0u64, v, p),
    decreases 7 - p,
{
    if p < 1 || p > 6 {
        lemma_xor_algebra(h, 0u64, 0u64);
    } else {
        let xw = xor_squares(z, 0u64, mask_of(v, p, WHITE), p as int, 0);
        let xb = xor_squares(z, 0u64, mask_of(v, p, BLACK), p as int, 1);
        lemma_xor_squares_shift(z, h, mask_of(v, p, WHITE), p as int, 0);
        lemma_xor_squares_shift(z, h ^ xw, mask_of(v, p, BLACK), p as int, 1);
        lemma_xor_squares_shift(z, 0u64, mask_of(v, p, WHITE), p as int, 0);
        lemma_xor_squares_shift(z, 0u64 ^ xw, mask_of(v, p, BLACK), p as int, 1);
        let hb = (h ^ xw) ^ xb;
        let hb0 = (0u64 ^ xw) ^ xb;
        lemma_xor_pieces_shift(z, hb, v, (p + 1) as u8);
        lemma_xor_pieces_shift(z, hb0, v, (p + 1) as u8);
        let rest = xor_pieces(z, 0u64, v, (p + 1) as u8);
        lemma_xor_identities(h, xw, xb, rest, 0u64);
        assert((((h ^ xw) ^ xb) ^ rest) == h ^ (((0u64 ^ xw) ^ xb) ^ rest));
    }
}

/// Changing one bitboard of a position changes the pieces' keys by the
/// change of that bitboard's keys.
proof fn lemma_xor_pieces_change(
    z: ZobristView,
    v: BoardView,
    v2: BoardView,
    pt: u8,
    c: u8,
    d: u64,
    p: u8,
)
    requires
        is_piece_type(pt),
        is_color(c),
        v.pieces.len() == 12,
        v2.pieces == v.pieces.update(crate::chessboard::piece_slot(pt, c), v2.pieces[crate::chessboard::piece_slot(pt, c)]),
        xor_squares(z, 0u64, mask_of(v2, pt, c), pt as int, color_index(c)) == xor_squares(
            z,
            0u64,
            mask_of(v, pt, c),
            pt as int,
            color_index(c),
        ) ^ d,
        1 <= p <= 7,
    ensures
        xor_pieces(z, 0u64, v2, p) == xor_pieces(z, 0u64, v, p) ^ (if p <= pt {
            d
        } else {
            0u64
        }),
    decreases 7 - p,
{
    if p > 6 {
        lemma_xor_algebra(0u64, 0u64, 0u64);
    } else {
        lemma_xor_pieces_change(z, v, v2, pt, c, d, (p + 1) as u8);
        let r1 = xor_pieces(z, 0u64, v, (p + 1) as u8);
        let e1: u64 = if p + 1 <= pt {
            d
        } else {
            0u64
        };
        lemma_xor_pieces_shift(z, xor_squares(z, xor_squares(z, 0u64, mask_of(v, p, WHITE), p as int, 0), mask_of(v, p, BLACK), p as int, 1), v, (p + 1) as u8);
        lemma_xor_pieces_shift(z, xor_squares(z, xor_squares(z, 0u64, mask_of(v2, p, WHITE), p as int, 0), mask_of(v2, p, BLACK), p as int, 1), v2, (p + 1) as u8);
        let xw = xor_squares(z, 0u64, mask_of(v, p, WHITE), p as int, 0);
        let xb = xor_squares(z, 0u64, mask_of(v, p, BLACK), p as int, 1);
        let yw = xor_squares(z, 0u64, mask_of(v2, p, WHITE), p as int, 0);
        let yb = xor_squares(z, 0u64, mask_of(v2, p, BLACK), p as int, 1);
        lemma_xor_squares_shift(z, xw, mask_of(v, p, BLACK), p as int, 1);
        lemma_xor_squares_shift(z, yw, mask_of(v2, p, BLACK), p as int, 1);
        if p == pt {
            if c == WHITE {
                assert(mask_of(v2, p, BLACK) == mask_of(v, p, BLACK));
                assert(yw == xw ^ d);
                assert(e1 == 0u64);
                lemma_xor_identities(xw, d, xb, r1, 0u64);
                assert((((xw ^ d) ^ xb) ^ (r1 ^ 0u64)) == ((xw ^ xb) ^ r1) ^ d);
            } else {
                assert(mask_of(v2, p, WHITE) == mask_of(v, p, WHITE));
                assert(yb == xb ^ d);
                assert(e1 == 0u64);
                lemma_xor_identities(xw, d, xb, r1, 0u64);
                assert(((xw ^ (xb ^ d)) ^ (r1 ^ 0u64)) == ((xw ^ xb) ^ r1) ^ d);
            }
        } else {
            assert(mask_of(v2, p, WHITE) == mask_of(v, p, WHITE));
            assert(mask_of(v2, p, BLACK) == mask_of(v, p, BLACK));
            lemma_xor_identities(xw, e1, xb, r1, 0u64);
            assert(((xw ^ xb) ^ (r1 ^ e1)) == ((xw ^ xb) ^ r1) ^ e1);
        }
    }
}

/// XOR-ing the castling keys of `rights` into `h` is XOR-ing `h` with them
/// folded into 0.
proof fn lemma_xor_castling_shift(z: ZobristView, h: u64, rights: u8, i: int)
    ensures
        xor_castling(z, h, rights, i) == h ^ xor_castling(z, 0u64, rights, i),
    decreases 4 - i,
{
    if i < 0 || i >= 4 {
        lemma_xor_algebra(h, 0u64, 0u64);
    } else {
        let k = z.castling_keys[i];
        let held = (rights >> (i as u8)) & 1u8 != 0;
        let h2 = if held {
            h ^ k
        } else {
            h
        };
        let z2 = if held {
            0u64 ^ k
        } else {
            0u64
        };
        lemma_xor_castling_shift(z, h2, rights, i + 1);
        lemma_xor_castling_shift(z, z2, rights, i + 1);
        let rest = xor_castling(z, 0u64, rights, i + 1);
        lemma_xor_identities(h, k, rest, 0u64, 0u64);
        assert(((h ^ k) ^ rest) == h ^ ((0u64 ^ k) ^ rest));
        lemma_xor_identities(h, 0u64, rest, 0u64, 0u64);
        assert((h ^ rest) == h ^ (0u64 ^ rest));
    }
}

/// Two positions with the same bitboards fold the same pieces' keys.
proof fn lemma_xor_pieces_same(z: ZobristView, h: u64, v: BoardView, v2: BoardView, p: u8)
    requires
        v.pieces == v2.pieces,
    ensures
        xor_pieces(z, h, v, p) == xor_pieces(z, h, v2, p),
    decreases 7 - p,
{
    if 1 <= p <= 6 {
        let hw = xor_squares(z, h, mask_of(v, p, WHITE), p as int, 0);
        let hb = xor_squares(z, hw, mask_of(v, p, BLACK), p as int, 1);
        lemma_xor_pieces_same(z, hb, v, v2, (p + 1) as u8);
    }
}

/// The hash reads the bitboards, the castling rights and the en passant
/// file only: two positions that agree on them hash alike.
pub proof fn lemma_hash_ignores_occupancy(z: ZobristView, v: BoardView, v2: BoardView, color_to_move: u8)
    requires
        v2.pieces == v.pieces,
        v2.castling == v.castling,
        v2.en_passant == v.en_passant,
    ensures
        hash_spec(z, v2, color_to_move) == hash_spec(z, v, color_to_move),
{
    lemma_xor_pieces_same(z, 0u64, v, v2, 1);
}

/// A change of the pieces' folded keys by `d` changes the hash by `d`.
proof fn lemma_hash_pieces_delta(z: ZobristView, v: BoardView, v2: BoardView, color_to_move: u8, d: u64)
    requires
        v2.castling == v.castling,
        v2.en_passant == v.en_passant,
        xor_pieces(z, 0u64, v2, 1) == xor_pieces(z, 0u64, v, 1) ^ d,
    ensures
        hash_spec(z, v2, color_to_move) == hash_spec(z, v, color_to_move) ^ d,
{
    let hp = xor_pieces(z, 0u64, v, 1);
    let side = z.side_to_move;
    let hs = if color_to_move == BLACK {
        hp ^ side
    } else {
        hp
    };
    let hs2 = if color_to_move == BLACK {
        (hp ^ d) ^ side
    } else {
        hp ^ d
    };
    assert(hs2 == hs ^ d) by {
        lemma_xor_identities(hp, d, side, 0u64, 0u64);
        assert(((hp ^ d) ^ side) == (hp ^ side) ^ d);
    }
    lemma_xor_castling_shift(z, hs, v.castling, 0);
    lemma_xor_castling_shift(z, hs2, v.castling, 0);
    let cr = xor_castling(z, 0u64, v.castling, 0);
    lemma_xor_identities(hs, d, cr, 0u64, 0u64);
    assert(((hs ^ d) ^ cr) == (hs ^ cr) ^ d);
    if v.en_passant != 0 {
        let e = z.en_passant_keys[v.en_passant as int];
        lemma_xor_identities(hs, d, cr, e, 0u64);
        assert((((hs ^ d) ^ cr) ^ e) == ((hs ^ cr) ^ e) ^ d);
    }
}

/// Replacing one bitboard changes the hash by the change of its folded keys.
proof fn lemma_hash_with_mask(z: ZobristView, v: BoardView, pt: u8, c: u8, m: u64, d: u64, color_to_move: u8)
    requires
        v.pieces.len() == 12,
        is_piece_type(pt),
        is_color(c),
        xor_squares(z, 0u64, m, pt as int, color_index(c)) == xor_squares(
            z,
            0u64,
            mask_of(v, pt, c),
            pt as int,
            color_index(c),
        ) ^ d,
    ensures
        hash_spec(z, with_mask(v, pt, c, m), color_to_move) == hash_spec(z, v, color_to_move) ^ d,
{
    let v2 = with_mask(v, pt, c, m);
    assert(mask_of(v2, pt, c) == m);
    lemma_xor_pieces_change(z, v, v2, pt, c, d, 1);
    lemma_hash_pieces_delta(z, v, v2, color_to_move, d);
}

/// Adding a piece of type `pt` and color `c` on a square `s` where its
/// bitboard has none changes the hash by that piece's key on `s`, the key
/// that `toggle_piece` XORs in.
pub proof fn lemma_hash_add_piece(z: ZobristView, v: BoardView, pt: u8, c: u8, s: u64, color_to_move: u8)
    requires
        v.pieces.len() == 12,
        is_piece_type(pt),
        is_color(c),
        s < 64,
        mask_of(v, pt, c) & (1u64 << s) == 0,
    ensures
        hash_spec(z, with_mask(v, pt, c, mask_of(v, pt, c) | (1u64 << s)), color_to_move) == hash_spec(
            z,
            v,
            color_to_move,
        ) ^ piece_key(z, pt as int, c, s as int),
{
    let bb = mask_of(v, pt, c);
    let bb2 = bb | (1u64 << s);
    assert(s < 64 && bb & (1u64 << s) == 0 ==> ((bb | (1u64 << s)) >> s) & 1u64 == 1u64 && (bb | (1u64
        << s)) & !(1u64 << s) == bb) by (bit_vector);
    let ci = color_index(c);
    lemma_xor_squares_remove(z, bb2, s, pt as int, ci);
    let ks = piece_key(z, pt as int, c, s as int);
    let r = xor_squares(z, 0u64, bb, pt as int, ci);
    assert(bb2 & !(1u64 << s) == bb);
    lemma_xor_identities(ks, r, 0u64, 0u64, 0u64);
    assert(ks ^ r == r ^ ks);
    lemma_hash_with_mask(z, v, pt, c, bb2, ks, color_to_move);
}

/// Removing a piece of type `pt` and color `c` from a square `s` of its
/// bitboard changes the hash by that piece's key on `s`.
pub proof fn lemma_hash_remove_piece(z: ZobristView, v: BoardView, pt: u8, c: u8, s: u64, color_to_move: u8)
    requires
        v.pieces.len() == 12,
        is_piece_type(pt),
        is_color(c),
        s < 64,
        mask_of(v, pt, c) & (1u64 << s) != 0,
    ensures
        hash_spec(z, with_mask(v, pt, c, mask_of(v, pt, c) & !(1u64 << s)), color_to_move) == hash_spec(
            z,
            v,
            color_to_move,
        ) ^ piece_key(z, pt as int, c, s as int),
{
    let bb = mask_of(v, pt, c);
    assert(s < 64 && bb & (1u64 << s) != 0 ==> (bb >> s) & 1u64 == 1u64) by (bit_vector);
    let ci = color_index(c);
    lemma_xor_squares_remove(z, bb, s, pt as int, ci);
    let ks = piece_key(z, pt as int, c, s as int);
    let r = xor_squares(z, 0u64, bb & !(1u64 << s), pt as int, ci);
    lemma_xor_identities(r, ks, 0u64, 0u64, 0u64);
    assert(r == (ks ^ r) ^ ks);
    lemma_hash_with_mask(z, v, pt, c, bb & !(1u64 << s), ks, color_to_move);
}

/// Moving a piece along its bitboard from square `f` to an empty square `t`
/// changes the hash by its keys on both squares.
proof fn lemma_hash_relocate(z: ZobristView, v: BoardView, pt: u8, c: u8, f: u64, t: u64, color_to_move: u8)
    requires
        v.pieces.len() == 12,
        is_piece_type(pt),
        is_color(c),
        f < 64,
        t < 64,
        mask_of(v, pt, c) & (1u64 << f) != 0,
        mask_of(v, pt, c) & (1u64 << t) == 0,
    ensures
        hash_spec(
            z,
            with_mask(v, pt, c, relocate(mask_of(v, pt, c), 1u64 << f, 1u64 << t)),
            color_to_move,
        ) == hash_spec(z, v, color_to_move) ^ (piece_key(z, pt as int, c, f as int) ^ piece_key(
            z,
            pt as int,
            c,
            t as int,
        )),
{
    let bb = mask_of(v, pt, c);
    assert(f < 64 && t < 64 && bb & (1u64 << f) != 0 && bb & (1u64 << t) == 0 ==> (bb >> f) & 1u64
        == 1u64 && (bb >> t) & 1u64 == 0u64) by (bit_vector);
    let ci = color_index(c);
    lemma_xor_squares_move(z, bb, f, t, pt as int, ci);
    lemma_hash_with_mask(
        z,
        v,
        pt,
        c,
        relocate(bb, 1u64 << f, 1u64 << t),
        piece_key(z, pt as int, c, f as int) ^ piece_key(z, pt as int, c, t as int),
        color_to_move,
    );
}

/// Recording an en passant index `e` where none was changes the hash by
/// the key of `e`, the key that `toggle_en_passant` XORs in; toggling it
/// again gives the hash back.
pub proof fn lemma_hash_set_en_passant(z: ZobristView, v: BoardView, e: u8, color_to_move: u8)
    requires
        v.en_passant == 0,
        e != 0,
    ensures
        hash_spec(z, BoardView { en_passant: e, ..v }, color_to_move) == hash_spec(z, v, color_to_move)
            ^ z.en_passant_keys[e as int],
{
    lemma_xor_pieces_same(z, 0u64, v, BoardView { en_passant: e, ..v }, 1);
}

/// Passing the move to black changes the hash by the side-to-move key, the
/// key that `toggle_side` XORs in.
pub proof fn lemma_hash_side(z: ZobristView, v: BoardView)
    ensures
        hash_spec(z, v, BLACK) == hash_spec(z, v, WHITE) ^ z.side_to_move,
{
    let hp = xor_pieces(z, 0u64, v, 1);
    let side = z.side_to_move;
    lemma_xor_castling_shift(z, hp, v.castling, 0);
    lemma_xor_castling_shift(z, hp ^ side, v.castling, 0);
    let cr = xor_castling(z, 0u64, v.castling, 0);
    let e = z.en_passant_keys[v.en_passant as int];
    lemma_xor_identities(hp, side, cr, e, 0u64);
}

/// Flipping castling bit `i` (below 4) flips whether right `i` is held and
/// leaves the other bits as they are.
proof fn lemma_flip_bit(r: u8, i: u8, j: u8)
    requires
        i < 4,
        j < 4,
    ensures
        (((r ^ (1u8 << i)) >> j) & 1u8 != 0) == (if i == j {
            !((r >> j) & 1u8 != 0)
        } else {
            (r >> j) & 1u8 != 0
        }),
{
    assert(i < 4 && j < 4 ==> (((r ^ (1u8 << i)) >> j) & 1u8 != 0) == (if i == j {
        !((r >> j) & 1u8 != 0)
    } else {
        (r >> j) & 1u8 != 0
    })) by (bit_vector);
}

/// The castling keys folded for rights with bit `i` flipped differ, from
/// index `j` on, by the key of right `i` when `j` does not pass it.
proof fn lemma_xor_castling_flip(z: ZobristView, r: u8, i: u8, j: int)
    requires
        i < 4,
        0 <= j <= 4,
    ensures
        xor_castling(z, 0u64, r ^ (1u8 << i), j) == xor_castling(z, 0u64, r, j) ^ (if j <= i {
            z.castling_keys[i as int]
        } else {
            0u64
        }),
    decreases 4 - j,
{
    let r2 = r ^ (1u8 << i);
    let k = z.castling_keys[i as int];
    if j >= 4 {
        lemma_xor_identities(0u64, 0u64, 0u64, 0u64, 0u64);
    } else {
        lemma_xor_castling_flip(z, r, i, j + 1);
        lemma_flip_bit(r, i, j as u8);
        let kj = z.castling_keys[j];
        let b1 = (r >> (j as u8)) & 1u8 != 0;
        let b2 = (r2 >> (j as u8)) & 1u8 != 0;
        let h1: u64 = if b1 {
            0u64 ^ kj
        } else {
            0u64
        };
        let h2: u64 = if b2 {
            0u64 ^ kj
        } else {
            0u64
        };
        lemma_xor_castling_shift(z, h1, r, j + 1);
        lemma_xor_castling_shift(z, h2, r2, j + 1);
        let f1 = xor_castling(z, 0u64, r, j + 1);
        let d = if j + 1 <= i {
            k
        } else {
            0u64
        };
        lemma_xor_identities(kj, 0u64, 0u64, 0u64, 0u64);
        lemma_xor_identities(0u64, kj, 0u64, 0u64, 0u64);
        lemma_xor_identities(h1, f1, d, 0u64, 0u64);
        lemma_xor_identities(h1, kj, f1, 0u64, 0u64);
        lemma_xor_identities(f1, kj, 0u64, 0u64, 0u64);
        lemma_xor_identities(kj, f1, 0u64, 0u64, 0u64);
        lemma_xor_identities(f1, 0u64, 0u64, 0u64, 0u64);
        lemma_xor_identities(0u64, f1, 0u64, 0u64, 0u64);
        lemma_xor_identities(kj ^ f1, kj, 0u64, 0u64, 0u64);
        lemma_xor_identities(f1, kj, kj, 0u64, 0u64);
    }
}

/// Flipping castling right `i` (below 4) changes the hash by the key of
/// that right, the key that `toggle_castling` XORs in.
pub proof fn lemma_hash_toggle_castling(z: ZobristView, v: BoardView, i: u8, color_to_move: u8)
    requires
        i < 4,
    ensures
        hash_spec(z, BoardView { castling: v.castling ^ (1u8 << i), ..v }, color_to_move) == hash_spec(
            z,
            v,
            color_to_move,
        ) ^ z.castling_keys[i as int],
{
    let v2 = BoardView { castling: v.castling ^ (1u8 << i), ..v };
    lemma_xor_pieces_same(z, 0u64, v, v2, 1);
    let hp = xor_pieces(z, 0u64, v, 1);
    let hs = if color_to_move == BLACK {
        hp ^ z.side_to_move
    } else {
        hp
    };
    lemma_xor_castling_shift(z, hs, v.castling, 0);
    lemma_xor_castling_shift(z, hs, v2.castling, 0);
    lemma_xor_castling_flip(z, v.castling, i, 0);
    let c1 = xor_castling(z, 0u64, v.castling, 0);
    let k = z.castling_keys[i as int];
    let e = z.en_passant_keys[v.en_passant as int];
    lemma_xor_identities(hs, c1, k, e, 0u64);
    lemma_xor_identities(hs ^ c1, k, e, 0u64, 0u64);
}

/// Distinct one-square masks share no square.
proof fn lemma_distinct_squares(a: u64, b: u64)
    requires
        a < 64,
        b < 64,
        (1u64 << a) != (1u64 << b),
    ensures
        (1u64 << a) & (1u64 << b) == 0,
{
    assert(a < 64 && b < 64 && (1u64 << a) != (1u64 << b) ==> (1u64 << a) & (1u64 << b) == 0) by (bit_vector);
}

/// What the incremental update needs of the position a move is played on:
/// the mover on its origin, no piece on its destination and no en passant
/// file recorded; a pawn for a double push or a promotion; for en passant,
/// the captured pawn alone on its square; for castling, the rook on its
/// square and no piece on the rook's destination, and, where the mover is
/// itself a rook, its squares apart from the castling rook's.
pub open spec fn update_fits(v: BoardView, mv: (u16, MoveType)) -> bool {
    let pt = mover_piece(mv);
    let c = mover_color(mv);
    let from = 1u64 << from_index_of(mv.0);
    let to = 1u64 << to_index_of(mv.0);
    &&& v.pieces.len() == 12
    &&& is_piece_type(pt)
    &&& mask_of(v, pt, c) & from != 0
    &&& forall|i: int| 0 <= i < 12 ==> #[trigger] v.pieces[i] & to == 0
    &&& v.en_passant == 0
    &&& match mv.1 {
        MoveType::Normal => true,
        MoveType::DoublePawnPush => pt == PAWN,
        MoveType::Promotion { promoted_piece } => pt == PAWN && is_piece_type(promoted_piece),
        MoveType::EnPassant { captured_square } => {
            &&& captured_square == 1u64 << low_index(captured_square)
            &&& mask_of(v, PAWN, opponent(c)) & captured_square != 0
            &&& forall|i: int|
                0 <= i < 12 && i != piece_slot(PAWN, opponent(c)) ==> #[trigger] v.pieces[i] & captured_square
                    == 0
        },
        MoveType::Castling { rook_from, rook_to } => {
            &&& rook_from == 1u64 << low_index(rook_from)
            &&& rook_to == 1u64 << low_index(rook_to)
            &&& mask_of(v, ROOK, c) & rook_from != 0
            &&& forall|i: int| 0 <= i < 12 ==> #[trigger] v.pieces[i] & rook_to == 0
            &&& (pt == ROOK ==> rook_from != from && rook_to != to)
        },
    }
}

/// The incremental update agrees with hashing afresh, for every kind of
/// move: on a position where the mover stands on its origin, its
/// destination is empty and no en passant file is recorded (with the
/// special squares of en passant and castling as `update_fits` says), the
/// updated hash of the position is the hash of the position after the move,
/// with the same side to move.
pub proof fn lemma_update_matches_hash(z: ZobristView, v: BoardView, mv: (u16, MoveType), color_to_move: u8)
    requires
        update_ok(mv),
        update_fits(v, mv),
    ensures
        update_spec(z, mv, hash_spec(z, v, color_to_move)) == hash_spec(z, after_move(v, mv), color_to_move),
{
    crate::chess_move::lemma_fields_in_range(mv.0);
    let ctm = color_to_move;
    let pt = mover_piece(mv);
    let c = mover_color(mv);
    let fi = from_index_of(mv.0) as u64;
    let ti = to_index_of(mv.0) as u64;
    let from = 1u64 << fi;
    let to = 1u64 << ti;
    let h = hash_spec(z, v, ctm);
    let kf = piece_key(z, pt as int, c, fi as int);
    let kt = piece_key(z, pt as int, c, ti as int);
    let v1 = crate::chessboard::clear_square_view(BoardView { en_passant: 0u8, ..v }, to);
    assert(v1.pieces =~= v.pieces);
    lemma_hash_ignores_occupancy(z, v, v1, ctm);
    assert(v.pieces[piece_slot(pt, c)] & to == 0);
    let after = after_move(v, mv);
    match mv.1 {
        MoveType::Promotion { promoted_piece } => {
            let pp = promoted_piece;
            let v2 = with_mask(v1, PAWN, c, mask_of(v1, PAWN, c) & !from);
            lemma_hash_remove_piece(z, v1, PAWN, c, fi, ctm);
            assert(mask_of(v2, pp, c) & to == 0) by {
                assert(v.pieces[piece_slot(pp, c)] & to == 0);
                let m = mask_of(v1, PAWN, c);
                assert(m & to == 0 ==> (m & !from) & to == 0) by (bit_vector);
            }
            let v3 = with_mask(v2, pp, c, mask_of(v2, pp, c) | to);
            lemma_hash_add_piece(z, v2, pp, c, ti, ctm);
            lemma_hash_ignores_occupancy(z, v3, after, ctm);
        },
        MoveType::Normal => {
            lemma_hash_relocate(z, v1, pt, c, fi, ti, ctm);
            let w = with_mask(v1, pt, c, relocate(mask_of(v1, pt, c), from, to));
            lemma_hash_ignores_occupancy(z, w, after, ctm);
            lemma_xor_identities(h, kf, kt, 0u64, 0u64);
            assert(((h ^ kf) ^ kt) == h ^ (kf ^ kt));
        },
        MoveType::DoublePawnPush => {
            crate::bits::lemma_low_index_single(fi);
            let e = ((fi % 8) + 1) as u8;
            let v2 = BoardView { en_passant: e, ..v1 };
            lemma_hash_set_en_passant(z, v1, e, ctm);
            let ek = z.en_passant_keys[e as int];
            lemma_hash_relocate(z, v2, pt, c, fi, ti, ctm);
            let w = with_mask(v2, pt, c, relocate(mask_of(v2, pt, c), from, to));
            lemma_hash_ignores_occupancy(z, w, after, ctm);
            lemma_xor_identities(h, kf, kt, ek, 0u64);
            assert(((h ^ kf) ^ kt) ^ ek == (h ^ ek) ^ (kf ^ kt));
        },
        MoveType::EnPassant { captured_square } => {
            let cap = captured_square;
            let oc = opponent(c);
            let ps = piece_slot(PAWN, oc);
            crate::bits::lemma_low_index(cap);
            let ci = low_index(cap) as u64;
            let v2 = crate::chessboard::clear_square_view(v1, cap);
            let wc = with_mask(v1, PAWN, oc, mask_of(v1, PAWN, oc) & !(1u64 << ci));
            assert(v2.pieces =~= wc.pieces);
            lemma_hash_remove_piece(z, v1, PAWN, oc, ci, ctm);
            lemma_hash_ignores_occupancy(z, wc, v2, ctm);
            let kc = piece_key(z, PAWN as int, oc, ci as int);
            assert(mask_of(v2, pt, c) == mask_of(v, pt, c));
            lemma_hash_relocate(z, v2, pt, c, fi, ti, ctm);
            let w = with_mask(v2, pt, c, relocate(mask_of(v2, pt, c), from, to));
            lemma_hash_ignores_occupancy(z, w, after, ctm);
            lemma_xor_identities(h, kf, kt, kc, 0u64);
            assert(((h ^ kf) ^ kt) ^ kc == (h ^ kc) ^ (kf ^ kt));
        },
        MoveType::Castling { rook_from, rook_to } => {
            crate::bits::lemma_low_index(rook_from);
            crate::bits::lemma_low_index(rook_to);
            let ri = low_index(rook_from) as u64;
            let rj = low_index(rook_to) as u64;
            assert(v.pieces[piece_slot(ROOK, c)] & rook_to == 0);
            lemma_hash_relocate(z, v1, ROOK, c, ri, rj, ctm);
            let wr = with_mask(v1, ROOK, c, relocate(mask_of(v1, ROOK, c), rook_from, rook_to));
            let v2 = crate::chessboard::relocate_color(wr, c, rook_from, rook_to);
            lemma_hash_ignores_occupancy(z, wr, v2, ctm);
            let m = mask_of(v, pt, c);
            if pt == ROOK {
                lemma_distinct_squares(ri, fi);
                lemma_distinct_squares(rj, ti);
                assert(m & from != 0 && m & to == 0 && rook_to & to == 0 && rook_from & from == 0 ==> ((m
                    & !rook_from) | rook_to) & from != 0 && ((m & !rook_from) | rook_to) & to == 0)
                    by (bit_vector);
            }
            assert(mask_of(v2, pt, c) & from != 0 && mask_of(v2, pt, c) & to == 0);
            lemma_hash_relocate(z, v2, pt, c, fi, ti, ctm);
            let w = with_mask(v2, pt, c, relocate(mask_of(v2, pt, c), from, to));
            lemma_hash_ignores_occupancy(z, w, after, ctm);
            let ka = piece_key(z, ROOK as int, c, ri as int);
            let kb = piece_key(z, ROOK as int, c, rj as int);
            lemma_xor_identities(h, kf, kt, ka, kb);
            assert((((h ^ kf) ^ kt) ^ ka) ^ kb == (h ^ (ka ^ kb)) ^ (kf ^ kt));
        },
    }
}

} // verus!
