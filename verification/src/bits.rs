//! Facts about 64-bit bitboards: the lowest set square, enumeration of the
//! squares of a mask, and population counts.
use vstd::prelude::*;

verus! {

use vstd::std_specs::bits::{u64_trailing_zeros, axiom_u64_trailing_zeros};

/// The square index (0..64) of the lowest set bit of `m`; 64 when `m` is empty.
pub open spec fn low_index(m: u64) -> u32 {
    u64_trailing_zeros(m)
}

/// The lowest set square of a non-empty bitboard, as a one-square mask.
pub open spec fn low_square(m: u64) -> u64 {
    1u64 << low_index(m)
}

/// The bitboard with its lowest set square removed.
pub open spec fn without_low(m: u64) -> u64 {
    m & ((m - 1) as u64)
}

pub proof fn lemma_without_low_smaller(m: u64)
    requires
        m != 0,
    ensures
        m & ((m - 1) as u64) < m,
{
    assert(m != 0 ==> m & ((m - 1) as u64) < m) by (bit_vector);
}

/// For a non-empty mask the lowest set index is a square of the board.
pub proof fn lemma_low_index(m: u64)
    requires
        m != 0,
    ensures
        low_index(m) < 64,
        without_low(m) < m,
{
    axiom_u64_trailing_zeros(m);
    lemma_without_low_smaller(m);
}

/// A one-square mask has exactly one set bit, at its own index.
pub proof fn lemma_single_bit(f: u64, j: u64)
    requires
        f < 64,
        j < 64,
    ensures
        ((1u64 << f) >> j) & 1u64 == 1u64 <==> j == f,
        (1u64 << f) != 0,
{
    assert(f < 64 && j < 64 ==> (((1u64 << f) >> j) & 1u64 == 1u64 <==> j == f) && (1u64 << f)
        != 0) by (bit_vector);
}

/// The lowest set index of the mask of square `f` is `f`.
pub proof fn lemma_low_index_single(f: u64)
    requires
        f < 64,
    ensures
        low_index(1u64 << f) == f,
        low_square(1u64 << f) == 1u64 << f,
{
    lemma_single_bit(f, 0);
    axiom_u64_trailing_zeros(1u64 << f);
    let t = u64_trailing_zeros(1u64 << f) as u64;
    lemma_single_bit(f, t);
}

/// Elementary identities of `&`, `|` and `!` on bitboards.
pub proof fn lemma_mask_identities(a: u64, b: u64)
    ensures
        (a & !b) & !b == a & !b,
        a & b == 0 ==> a & !b == a,
        ((a & !b) | b) & b == b,
        (a & !b) & b == 0,
        a & 0 == 0,
        a | 0 == a,
        0 | a == a,
{
    assert((a & !b) & !b == a & !b && (a & b == 0 ==> a & !b == a) && ((a & !b) | b) & b == b
        && (a & !b) & b == 0 && a & 0 == 0 && a | 0 == a && 0 | a == a) by (bit_vector);
}

/// The lowest square of a non-empty mask is a non-empty one-square mask
/// inside it.
pub proof fn lemma_low_square(m: u64)
    requires
        m != 0,
    ensures
        low_square(m) != 0,
        low_square(m) & m == low_square(m),
{
    lemma_low_index(m);
    axiom_u64_trailing_zeros(m);
    let t = low_index(m) as u64;
    assert(t < 64 && (m >> t) & 1u64 == 1u64 ==> (1u64 << t) != 0 && (1u64 << t) & m == (1u64
        << t)) by (bit_vector);
}

/// Clearing the lowest set square of a non-empty mask removes exactly that
/// square.
pub proof fn lemma_clear_low(m: u64)
    requires
        m != 0,
    ensures
        m & !low_square(m) == without_low(m),
{
    axiom_u64_trailing_zeros(m);
    let t = low_index(m) as u64;
    assert(t < 64);
    assert(m << ((64 - t) as u64) == 0);
    assert(t < 64 && (m >> t) & 1u64 == 1u64 && m << ((64 - t) as u64) == 0 ==> m & !(1u64 << t)
        == m & ((m - 1) as u64)) by (bit_vector);
}

/// The concatenation, over the squares of `m` from the lowest upwards, of
/// what `f` gives for each one-square mask.
pub open spec fn expand<A>(m: u64, f: spec_fn(u64) -> Seq<A>) -> Seq<A>
    decreases m,
{
    if m == 0 {
        Seq::empty()
    } else {
        proof {
            lemma_without_low_smaller(m);
        }
        f(low_square(m)) + expand(without_low(m), f)
    }
}

/// Every element of an expansion satisfies `p` when every element that `f`
/// gives for a non-empty square does.
pub proof fn lemma_expand_all<A>(m: u64, f: spec_fn(u64) -> Seq<A>, p: spec_fn(A) -> bool)
    requires
        forall|sq: u64, k: int| sq != 0 && 0 <= k < f(sq).len() ==> p(#[trigger] f(sq)[k]),
    ensures
        forall|k: int| 0 <= k < expand(m, f).len() ==> p(#[trigger] expand(m, f)[k]),
    decreases m,
{
    if m != 0 {
        lemma_without_low_smaller(m);
        lemma_low_square(m);
        lemma_expand_all(without_low(m), f, p);
        let head = f(low_square(m));
        let tail = expand(without_low(m), f);
        assert forall|k: int| 0 <= k < expand(m, f).len() implies p(#[trigger] expand(m, f)[k]) by {
            if k < head.len() {
                assert(expand(m, f)[k] == head[k]);
            } else {
                assert(expand(m, f)[k] == tail[k - head.len()]);
            }
        }
    }
}

/// The number of set bits of `x`.
pub open spec fn pop_count(x: nat) -> nat
    decreases x,
{
    if x == 0 {
        0
    } else {
        (x % 2) + pop_count(x / 2)
    }
}

/// std's `u64::count_ones`: its documentation says it returns the number of
/// ones in the binary representation of the value.
pub assume_specification[ u64::count_ones ](i: u64) -> (r: u32)
    ensures
        r == pop_count(i as nat),
;

proof fn lemma_pop_count_below(x: nat, k: nat)
    requires
        x < vstd::arithmetic::power2::pow2(k),
    ensures
        pop_count(x) <= k,
    decreases k,
{
    if k == 0 {
        vstd::arithmetic::power2::lemma2_to64();
    } else {
        vstd::arithmetic::power2::lemma_pow2_unfold(k);
        if x != 0 {
            lemma_pop_count_below(x / 2, (k - 1) as nat);
        }
    }
}

/// A bitboard has at most 64 set bits.
pub proof fn lemma_pop_count_u64(x: u64)
    ensures
        pop_count(x as nat) <= 64,
{
    vstd::arithmetic::power2::lemma2_to64_rest();
    vstd::arithmetic::power2::lemma2_to64();
    assert(vstd::arithmetic::power2::pow2(64) == 0x10000000000000000);
    lemma_pop_count_below(x as nat, 64);
}

/// The set bits of `a` split into those inside `b` and those outside it.
pub proof fn lemma_pop_count_split(a: u64, b: u64)
    ensures
        pop_count((a & b) as nat) + pop_count((a & !b) as nat) == pop_count(a as nat),
    decreases a,
{
    if a != 0 {
        assert((a & b) / 2 == (a / 2) & (b / 2) && (a & !b) / 2 == (a / 2) & !(b / 2) && (a & b) % 2
            + (a & !b) % 2 == a % 2 && (a / 2) < a) by (bit_vector)
            requires
                a != 0,
        ;
        lemma_pop_count_split(a / 2, b / 2);
    } else {
        assert(a & b == 0 && a & !b == 0) by (bit_vector)
            requires
                a == 0,
        ;
    }
}

/// Removing the lowest square of a non-empty bitboard removes one set bit.
pub proof fn lemma_pop_count_without_low(m: u64)
    requires
        m != 0,
    ensures
        pop_count(m as nat) == pop_count(without_low(m) as nat) + 1,
    decreases m,
{
    let w = m & ((m - 1) as u64);
    assert(m != 0 ==> (m % 2 == 1 ==> w % 2 == 0 && w / 2 == m / 2) && (m % 2 == 0 ==> w % 2 == 0 && w / 2
        == (m / 2) & (((m / 2) - 1) as u64) && m / 2 != 0 && m / 2 < m)) by (bit_vector)
        requires
            w == m & ((m - 1) as u64),
    ;
    if m % 2 == 0 {
        lemma_pop_count_without_low(m / 2);
    }
}

/// An expansion is no longer than `k` items per square of the bitboard,
/// when `f` gives at most `k` items for any square.
pub proof fn lemma_expand_len<A>(m: u64, f: spec_fn(u64) -> Seq<A>, k: nat)
    requires
        forall|sq: u64| #[trigger] f(sq).len() <= k,
    ensures
        expand(m, f).len() <= k * pop_count(m as nat),
        expand(m, f).len() <= k * 64,
    decreases m,
{
    lemma_pop_count_u64(m);
    if m != 0 {
        lemma_without_low_smaller(m);
        lemma_expand_len(without_low(m), f, k);
        lemma_pop_count_without_low(m);
        let n = pop_count(without_low(m) as nat);
        assert(k + k * n == k * (n + 1)) by (nonlinear_arith);
    }
    assert(k * pop_count(m as nat) <= k * 64) by (nonlinear_arith)
        requires
            pop_count(m as nat) <= 64,
    ;
}

/// A one-square mask has exactly one set bit.
pub proof fn lemma_pop_count_single(k: u64)
    requires
        k < 64,
    ensures
        pop_count((1u64 << k) as nat) == 1,
{
    assert(k < 64 ==> (1u64 << k) != 0 && (1u64 << k) & (((1u64 << k) - 1) as u64) == 0) by (bit_vector);
    lemma_pop_count_without_low(1u64 << k);
}

/// A bitboard with exactly one set bit is the mask of its lowest square.
pub proof fn lemma_single_bit_is_low_square(m: u64)
    requires
        pop_count(m as nat) == 1,
    ensures
        m == 1u64 << low_index(m),
        low_index(m) < 64,
{
    assert(m != 0);
    lemma_pop_count_without_low(m);
    let w = without_low(m);
    if w != 0 {
        lemma_pop_count_without_low(w);
    }
    axiom_u64_trailing_zeros(m);
    let t = low_index(m) as u64;
    assert(m != 0 && m & ((m - 1) as u64) == 0 && t < 64 && (m >> t) & 1u64 == 1u64 ==> m == 1u64 << t)
        by (bit_vector);
}

/// Shifting a bitboard up (multiplying by a power of two) keeps its number
/// of set bits.
pub proof fn lemma_pop_count_scaled(x: nat, s: nat)
    ensures
        pop_count(x * vstd::arithmetic::power2::pow2(s)) == pop_count(x),
    decreases s,
{
    if s > 0 {
        lemma_pop_count_scaled(x, (s - 1) as nat);
        vstd::arithmetic::power2::lemma_pow2_unfold(s);
        let y = x * vstd::arithmetic::power2::pow2((s - 1) as nat);
        assert(x * vstd::arithmetic::power2::pow2(s) == y * 2) by (nonlinear_arith)
            requires
                vstd::arithmetic::power2::pow2(s) == 2 * vstd::arithmetic::power2::pow2((s - 1) as nat),
                y == x * vstd::arithmetic::power2::pow2((s - 1) as nat),
        ;
        if y != 0 {
            assert((y * 2) % 2 == 0 && (y * 2) / 2 == y);
        }
    } else {
        vstd::arithmetic::power2::lemma2_to64();
    }
}

} // verus!
