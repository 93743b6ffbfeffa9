//! The single-search engine of the history board: fail-hard alpha-beta over
//! the generator's moves with a transposition table and killer-move
//! ordering, deepened one ply at a time while the time estimate allows.
use vstd::prelude::*;

verus! {

use crate::bits::low_index;
use crate::board_history::board::{
    Chessboard,
    PositionView,
    is_side,
    WHITE,
    BLACK,
    piece_on,
    moved,
    can_play,
    after_make,
    lemma_undo_make,
    key_of,
};
use crate::board_history::evaluation::{evaluate, material_spec, heuristics_spec, lemma_evaluation_bounds};
use crate::board_history::mask_move::{Move, move_of, lemma_move_of};
use crate::constants::{EMPTY, PAWN};
use crate::board_history::movegen::{generate_moves, all_moves, mask_views, double_steps_empty, RANK_0, RANK_1};
use crate::engine::{BoundType, now, elapsed, as_millis};

/// The lowest score: what a maximizing side without moves scores.
pub const MIN_SCORE: i32 = i32::MIN;
/// The highest score: what a minimizing side without moves scores.
pub const MAX_SCORE: i32 = i32::MAX;
/// Milliseconds that the estimate for the next depth may not exceed.
pub const TIME_CUTOFF: u64 = 30000u64;
/// Megabytes of table a single-search engine is made with.
pub const SINGLE_TABLE_MB: usize = 20000usize;

/// A stored search result.
#[derive(Clone, Copy, Debug)]
pub struct Entry {
    pub hash: u64,
    pub depth: i32,
    pub score: i32,
    pub best_move: Option<Move>,
    pub bound_type: BoundType,
}

/// The score of a searched position and the move that reached it.
#[derive(Clone, Copy, Debug)]
pub struct SearchResult {
    pub score: i32,
    pub best_move: Option<Move>,
}

impl SearchResult {
    pub fn new(score: i32, best_move: Option<Move>) -> (r: SearchResult)
        ensures
            r == (SearchResult { score, best_move }),
    {
        SearchResult { score, best_move }
    }
}

/// The slot of `hash` in a table of `len` slots.
pub open spec fn slot_of(len: nat, hash: u64) -> int {
    ((hash as usize) as int) % (len as int)
}

/// What a lookup of `hash` finds: the entry in its slot when it was stored
/// for the same hash, nothing otherwise.
pub open spec fn entry_for(entries: Seq<Option<Entry>>, hash: u64) -> Option<Entry> {
    match entries[slot_of(entries.len(), hash)] {
        Some(e) => if e.hash == hash {
            Some(e)
        } else {
            None
        },
        None => None,
    }
}

/// The slots after storing `entry`: it replaces an empty slot or a
/// shallower search, and is dropped otherwise.
pub open spec fn stored(entries: Seq<Option<Entry>>, entry: Entry) -> Seq<Option<Entry>> {
    let i = slot_of(entries.len(), entry.hash);
    let replace = match entries[i] {
        Some(existing) => entry.depth > existing.depth,
        None => true,
    };
    if replace {
        entries.update(i, Some(entry))
    } else {
        entries
    }
}

/// A fixed-size table of search results indexed by position key.
pub struct TranspositionTable {
    entries: Vec<Option<Entry>>,
    size: usize,
}

impl View for TranspositionTable {
    type V = Seq<Option<Entry>>;

    closed spec fn view(&self) -> Seq<Option<Entry>> {
        self.entries@
    }
}

impl TranspositionTable {
    /// At least one slot, and the size recorded.
    pub closed spec fn wf(&self) -> bool {
        &&& self.size > 0
        &&& self.entries@.len() == self.size
    }

    /// A table filling `size_mb` megabytes (at least one slot), all empty.
    pub fn new(size_mb: usize) -> (r: TranspositionTable)
        requires
            size_mb * 1024 * 1024 <= usize::MAX,
        ensures
            r.wf(),
            r@.len() > 0,
            forall|i: int| 0 <= i < r@.len() ==> #[trigger] r@[i] is None,
    {
        let raw_entry_size = core::mem::size_of::<Option<Entry>>();
        let entry_size = if raw_entry_size == 0 {
            1
        } else {
            raw_entry_size
        };
        let quotient = (size_mb * 1024 * 1024) / entry_size;
        let num_entries = if quotient < 1 {
            1
        } else {
            quotient
        };
        let entries: Vec<Option<Entry>> = vec![None; num_entries];
        let r = TranspositionTable { entries, size: num_entries };
        assert forall|i: int| 0 <= i < r.entries@.len() implies #[trigger] r.entries@[i] is None by {
            assert(vstd::pervasive::cloned::<Option<Entry>>(None, r.entries@[i]));
        }
        r
    }

    /// The stored entry for `hash`, if its slot holds that hash.
    pub fn get(&self, hash: u64) -> (r: Option<Entry>)
        requires
            self.wf(),
        ensures
            r == entry_for(self@, hash),
    {
        let idx = (hash as usize) % self.size;
        match self.entries[idx] {
            Some(e) => if e.hash == hash {
                Some(e)
            } else {
                None
            },
            None => None,
        }
    }

    /// Stores `entry` in its slot when the slot is empty or holds a
    /// shallower search.
    pub fn insert(&mut self, entry: Entry)
        requires
            old(self).wf(),
        ensures
            final(self).wf(),
            final(self)@ == stored(old(self)@, entry),
    {
        let idx = (entry.hash as usize) % self.size;
        let replace = match self.entries[idx] {
            Some(existing_entry) => entry.depth > existing_entry.depth,
            None => true,
        };
        if replace {
            self.entries.set(idx, Some(entry));
        }
    }
}

/// The first score recorded for `mv` in a killer-move list.
pub open spec fn killer_get(killers: Seq<(Move, i32)>, mv: Move) -> Option<i32>
    decreases killers.len(),
{
    if killers.len() == 0 {
        None
    } else if killers[0].0 == mv {
        Some(killers[0].1)
    } else {
        killer_get(killers.drop_first(), mv)
    }
}

/// The killer score of `mv`, if any.
fn killer_lookup(killers: &Vec<(Move, i32)>, mv: Move) -> (r: Option<i32>)
    ensures
        r == killer_get(killers@, mv),
{
    let mut i: usize = 0;
    assert(killers@.skip(0) =~= killers@);
    while i < killers.len()
        invariant
            i <= killers.len(),
            killer_get(killers@.skip(i as int), mv) == killer_get(killers@, mv),
        decreases killers.len() - i,
    {
        let entry = killers[i];
        assert(killers@.skip(i as int).drop_first() =~= killers@.skip(i + 1));
        if entry.0 == mv {
            return Some(entry.1);
        }
        i = i + 1;
    }
    None
}

/// The killer list after recording `score` for `mv`: the first entry of
/// `mv` is overwritten, or an entry is appended when there is none.
pub open spec fn killer_put(k: Seq<(Move, i32)>, mv: Move, score: i32) -> Seq<(Move, i32)>
    decreases k.len(),
{
    if k.len() == 0 {
        seq![(mv, score)]
    } else if k[0].0 == mv {
        k.update(0, (mv, score))
    } else {
        seq![k[0]] + killer_put(k.drop_first(), mv, score)
    }
}

/// Recording a score for the move of entry `i`, when no earlier entry has
/// that move, overwrites entry `i`.
proof fn lemma_killer_put_at(k: Seq<(Move, i32)>, i: int, mv: Move, score: i32)
    requires
        0 <= i < k.len(),
        k[i].0 == mv,
        forall|j: int| 0 <= j < i ==> (#[trigger] k[j]).0 != mv,
    ensures
        killer_put(k, mv, score) == k.update(i, (mv, score)),
    decreases i,
{
    if i > 0 {
        lemma_killer_put_at(k.drop_first(), i - 1, mv, score);
        assert(seq![k[0]] + k.drop_first().update(i - 1, (mv, score)) =~= k.update(i, (mv, score)));
    }
}

/// Recording a score for a move without an entry appends one.
proof fn lemma_killer_put_new(k: Seq<(Move, i32)>, mv: Move, score: i32)
    requires
        forall|j: int| 0 <= j < k.len() ==> (#[trigger] k[j]).0 != mv,
    ensures
        killer_put(k, mv, score) == k.push((mv, score)),
    decreases k.len(),
{
    if k.len() > 0 {
        lemma_killer_put_new(k.drop_first(), mv, score);
        assert(seq![k[0]] + k.drop_first().push((mv, score)) =~= k.push((mv, score)));
    } else {
        assert(seq![(mv, score)] =~= k.push((mv, score)));
    }
}

/// Records `score` for `mv` (see [`killer_put`]).
fn killer_insert(killers: &mut Vec<(Move, i32)>, mv: Move, score: i32)
    ensures
        final(killers)@ == killer_put(old(killers)@, mv, score),
{
    let ghost k0 = killers@;
    let mut i: usize = 0;
    while i < killers.len()
        invariant
            i <= killers.len(),
            killers@ == k0,
            k0 == old(killers)@,
            forall|j: int| 0 <= j < i ==> (#[trigger] killers@[j]).0 != mv,
        decreases killers.len() - i,
    {
        if killers[i].0 == mv {
            killers.set(i, (mv, score));
            proof {
                lemma_killer_put_at(k0, i as int, mv, score);
            }
            return ;
        }
        i = i + 1;
    }
    killers.push((mv, score));
    proof {
        lemma_killer_put_new(k0, mv, score);
    }
}

/// How many leading keys of `keys` are at most `key`: where a stable sort
/// inserts an item with that key.
pub open spec fn keys_at_most(keys: Seq<i64>, key: i64) -> nat
    decreases keys.len(),
{
    if keys.len() == 0 || keys[0] > key {
        0
    } else {
        1 + keys_at_most(keys.drop_first(), key)
    }
}

/// The first `n` items and their keys after a stable insertion sort: each
/// item goes after every earlier one whose key is not larger.
pub open spec fn stable_sorted(items: Seq<Move>, keys: Seq<i64>, n: int) -> (Seq<Move>, Seq<i64>)
    decreases n,
{
    if n <= 0 {
        (Seq::empty(), Seq::empty())
    } else {
        let (s, k) = stable_sorted(items, keys, n - 1);
        let pos = keys_at_most(k, keys[n - 1]) as int;
        (s.insert(pos, items[n - 1]), k.insert(pos, keys[n - 1]))
    }
}

/// The moves in stable order of their keys, lowest key first.
fn sort_by_keys(items: &Vec<Move>, keys: &Vec<i64>) -> (r: Vec<Move>)
    requires
        items.len() == keys.len(),
    ensures
        r@ == stable_sorted(items@, keys@, items@.len() as int).0,
        r@.to_multiset() == items@.to_multiset(),
{
    broadcast use vstd::seq_lib::group_to_multiset_ensures;

    let mut sorted: Vec<Move> = Vec::new();
    let mut skeys: Vec<i64> = Vec::new();
    let mut k: usize = 0;
    while k < items.len()
        invariant
            k <= items.len(),
            items.len() == keys.len(),
            (sorted@, skeys@) == stable_sorted(items@, keys@, k as int),
            sorted@.len() == skeys@.len(),
            sorted@.to_multiset() == items@.take(k as int).to_multiset(),
        decreases items.len() - k,
    {
        let mv = items[k];
        let key = keys[k];
        let mut pos: usize = 0;
        assert(skeys@.skip(0) =~= skeys@);
        while pos < skeys.len() && skeys[pos] <= key
            invariant
                pos <= skeys@.len(),
                pos + keys_at_most(skeys@.skip(pos as int), key) == keys_at_most(skeys@, key),
            decreases skeys@.len() - pos,
        {
            assert(skeys@.skip(pos as int)[0] == skeys@[pos as int]);
            assert(skeys@.skip(pos as int).drop_first() =~= skeys@.skip(pos + 1));
            pos = pos + 1;
        }
        proof {
            if pos < skeys@.len() {
                assert(skeys@.skip(pos as int)[0] == skeys@[pos as int]);
            }
            assert(pos == keys_at_most(skeys@, key));
        }
        let ghost old_sorted = sorted@;
        sorted.insert(pos, mv);
        skeys.insert(pos, key);
        proof {
            assert(items@.take(k + 1) =~= items@.take(k as int).push(mv));
            vstd::seq_lib::to_multiset_build(items@.take(k as int), mv);
            vstd::seq_lib::to_multiset_insert(old_sorted, pos as int, mv);
            assert(sorted@ =~= old_sorted.insert(pos as int, mv));
        }
        k = k + 1;
    }
    assert(items@.take(items.len() as int) =~= items@);
    sorted
}

/// The ordering key of a move inside the search: its killer score negated
/// (higher killer scores first), 0 for a move without one.
pub open spec fn killer_key(killers: Seq<(Move, i32)>, mv: Move) -> i64 {
    match killer_get(killers, mv) {
        Some(s) => -(s as int) as i64,
        None => 0i64,
    }
}

/// The moves ordered by their killer scores, best first, stably.
fn order_by_killers(moves: &Vec<Move>, killers: &Vec<(Move, i32)>) -> (r: Vec<Move>)
    ensures
        r@ == stable_sorted(moves@, killer_keys(moves@, killers@), moves@.len() as int).0,
        r@.to_multiset() == moves@.to_multiset(),
{
    let mut keys: Vec<i64> = Vec::new();
    let mut i: usize = 0;
    while i < moves.len()
        invariant
            i <= moves.len(),
            keys@ == killer_keys(moves@.take(i as int), killers@),
        decreases moves.len() - i,
    {
        let key: i64 = match killer_lookup(killers, moves[i]) {
            Some(s) => -(s as i64),
            None => 0,
        };
        keys.push(key);
        i = i + 1;
        assert(keys@ =~= killer_keys(moves@.take(i as int), killers@));
    }
    assert(moves@.take(moves.len() as int) =~= moves@);
    sort_by_keys(moves, &keys)
}

/// The other side.
pub open spec fn other_side(color: i8) -> i8 {
    if color == WHITE {
        BLACK
    } else {
        WHITE
    }
}

/// The evaluation of a position from the side of `color`: material plus
/// heuristics.
pub open spec fn evaluation(p: PositionView, color: i8) -> int {
    material_spec(p, color) + heuristics_spec(p, color)
}

/// The position after the generator's move `mv` is made on `p`: the piece
/// on the origin's lowest square moves.
pub open spec fn after_move(p: PositionView, mv: (u64, u64)) -> PositionView {
    let (piece, color) = piece_on(p, low_index(mv.0) as u64);
    moved(p, piece, color, mv.0, mv.1)
}

/// A search of `depth` plies for `color` from `p` runs to its end: at every
/// position it visits before the last ply, the generator stops on it (see
/// `double_steps_empty`) and each move it gives can be played.
#[verifier::opaque]
pub open spec fn search_ok(p: PositionView, color: i8, depth: int) -> bool
    decreases depth,
{
    if depth <= 0 {
        true
    } else {
        &&& double_steps_empty(p, color)
        &&& forall|k: int|
            0 <= k < all_moves(p, color).len() ==> can_play(p, #[trigger] all_moves(p, color)[k])
                && search_ok(after_move(p, all_moves(p, color)[k]), other_side(color), depth - 1)
    }
}

/// One level of [`search_ok`], spelled out.
pub proof fn lemma_search_ok_unfold(p: PositionView, color: i8, depth: int)
    requires
        depth > 0,
    ensures
        search_ok(p, color, depth) == (double_steps_empty(p, color) && forall|k: int|
            0 <= k < all_moves(p, color).len() ==> can_play(p, #[trigger] all_moves(p, color)[k])
                && search_ok(after_move(p, all_moves(p, color)[k]), other_side(color), depth - 1)),
{
    reveal(search_ok);
}

/// A search that runs to its end runs to its end when it is made shallower.
pub proof fn lemma_search_ok_shallower(p: PositionView, color: i8, depth: int, shallower: int)
    requires
        search_ok(p, color, depth),
        shallower <= depth,
    ensures
        search_ok(p, color, shallower),
    decreases depth,
{
    reveal(search_ok);
    if shallower > 0 {
        lemma_search_ok_unfold(p, color, depth);
        lemma_search_ok_unfold(p, color, shallower);
        assert forall|k: int| 0 <= k < all_moves(p, color).len() implies can_play(
            p,
            #[trigger] all_moves(p, color)[k],
        ) && search_ok(after_move(p, all_moves(p, color)[k]), other_side(color), shallower - 1) by {
            lemma_search_ok_shallower(
                after_move(p, all_moves(p, color)[k]),
                other_side(color),
                depth - 1,
                shallower - 1,
            );
        }
    }
}

/// Each move of an ordering of the generated moves is one the generator
/// gives, so it can be played and the search goes on below it.
proof fn lemma_ordered_moves(sorted: Seq<Move>, generated: Seq<Move>, p: PositionView, color: i8, depth: int)
    requires
        sorted.to_multiset() == generated.to_multiset(),
        mask_views(generated) == all_moves(p, color),
        depth >= 1,
        search_ok(p, color, depth),
    ensures
        forall|i: int|
            0 <= i < sorted.len() ==> all_moves(p, color).contains(#[trigger] sorted[i]@) && can_play(
                p,
                sorted[i]@,
            ) && search_ok(after_move(p, sorted[i]@), other_side(color), depth - 1),
{
    broadcast use vstd::seq_lib::group_to_multiset_ensures;

    lemma_search_ok_unfold(p, color, depth);
    assert forall|i: int| 0 <= i < sorted.len() implies all_moves(p, color).contains(
        #[trigger] sorted[i]@,
    ) && can_play(p, sorted[i]@) && search_ok(after_move(p, sorted[i]@), other_side(color), depth - 1) by {
        let m = sorted[i];
        assert(sorted.contains(m));
        assert(sorted.to_multiset().count(m) > 0);
        assert(generated.contains(m));
        let j = choose|j: int| 0 <= j < generated.len() && generated[j] == m;
        assert(mask_views(generated)[j] == m@);
        assert(all_moves(p, color)[j] == m@);
    }
}

/// Whether the table holds an entry for the key of `p` searched at least
/// `depth` plies deep, which a search of `depth` plies consults first.
pub open spec fn table_answers(entries: Seq<Option<Entry>>, p: PositionView, depth: i32) -> bool {
    match entry_for(entries, key_of(p)) {
        Some(e) => e.depth >= depth,
        None => false,
    }
}

/// The moves the generator gives for `color` on `p`, in its order.
pub open spec fn gen_moves(p: PositionView, color: i8) -> Seq<Move> {
    all_moves(p, color).map_values(|v: (u64, u64)| move_of(v))
}

/// The killer keys of a list of moves.
pub open spec fn killer_keys(moves: Seq<Move>, killers: Seq<(Move, i32)>) -> Seq<i64> {
    moves.map_values(|m: Move| killer_key(killers, m))
}

/// The window after a table entry: a lower bound may raise alpha, an upper
/// bound may lower beta.
pub open spec fn window_after(en: Entry, alpha: i32, beta: i32) -> (i32, i32) {
    match en.bound_type {
        BoundType::LowerBound => (if en.score > alpha {
            en.score
        } else {
            alpha
        }, beta),
        BoundType::UpperBound => (alpha, if en.score < beta {
            en.score
        } else {
            beta
        }),
        BoundType::Exact => (alpha, beta),
    }
}

/// The end of a search of `p`: the best score and move found, and the
/// table with them stored as an upper bound when the score did not rise
/// above alpha, as a lower bound otherwise.
pub open spec fn search_end(
    p: PositionView,
    depth: i32,
    alpha: i32,
    best_score: i32,
    best_move: Option<Move>,
    tt: Seq<Option<Entry>>,
    kl: Seq<(Move, i32)>,
) -> (SearchResult, Seq<Option<Entry>>, Seq<(Move, i32)>) {
    let bound_type = if best_score <= alpha {
        BoundType::UpperBound
    } else {
        BoundType::LowerBound
    };
    (
        SearchResult { score: best_score, best_move },
        stored(tt, Entry { hash: key_of(p), score: best_score, depth, best_move, bound_type }),
        kl,
    )
}

/// The score of a search of no plies: the evaluation for `color` when
/// maximizing, for the other side otherwise.
pub open spec fn leaf_score(p: PositionView, color: i8, maximizing_player: bool) -> i32 {
    evaluation(
        p,
        if maximizing_player {
            color
        } else {
            other_side(color)
        },
    ) as i32
}

/// The search result, table and killer list of a fail-hard alpha-beta
/// search of `depth` plies for `color` from `p` with window
/// `alpha..beta`, starting from table `tt` and killer list `kl`. At depth 0
/// it is the evaluation for `color` when maximizing, for the other side
/// otherwise; deeper, see [`search_node`].
#[verifier::opaque]
pub open spec fn search_value(
    p: PositionView,
    alpha: i32,
    beta: i32,
    color: i8,
    maximizing_player: bool,
    depth: i32,
    tt: Seq<Option<Entry>>,
    kl: Seq<(Move, i32)>,
) -> (SearchResult, Seq<Option<Entry>>, Seq<(Move, i32)>)
    decreases depth, 2int, 0int,
{
    if depth <= 0 {
        (SearchResult { score: leaf_score(p, color, maximizing_player), best_move: None }, tt, kl)
    } else {
        search_node(p, alpha, beta, color, maximizing_player, depth, tt, kl)
    }
}

/// A search node of at least one ply: an entry of the table for the
/// position's key, searched at least as deep, answers when it is exact or
/// narrows the window to nothing, and otherwise narrows the window; a side
/// without moves scores the lowest value when maximizing and the highest
/// otherwise; else the moves, ordered by killer score, are searched in turn
/// (see [`search_moves`]).
#[verifier::opaque]
pub open spec fn search_node(
    p: PositionView,
    alpha: i32,
    beta: i32,
    color: i8,
    maximizing_player: bool,
    depth: i32,
    tt: Seq<Option<Entry>>,
    kl: Seq<(Move, i32)>,
) -> (SearchResult, Seq<Option<Entry>>, Seq<(Move, i32)>)
    decreases depth, 1int, 0int,
{
    let found = entry_for(tt, key_of(p));
    let hit = table_answers(tt, p, depth);
    let en = found->Some_0;
    let window = if hit {
        window_after(en, alpha, beta)
    } else {
        (alpha, beta)
    };
    if hit && (en.bound_type is Exact || window.0 >= window.1) {
        (SearchResult { score: en.score, best_move: en.best_move }, tt, kl)
    } else {
        let gen = gen_moves(p, color);
        if gen.len() == 0 {
            (
                SearchResult {
                    score: if maximizing_player {
                        MIN_SCORE
                    } else {
                        MAX_SCORE
                    },
                    best_move: None,
                },
                tt,
                kl,
            )
        } else {
            let ordered = stable_sorted(gen, killer_keys(gen, kl), gen.len() as int).0;
            search_moves(
                p,
                color,
                maximizing_player,
                depth,
                ordered,
                0,
                window.0,
                window.1,
                if maximizing_player {
                    MIN_SCORE
                } else {
                    MAX_SCORE
                },
                None,
                tt,
                kl,
            )
        }
    }
}

/// The search of the moves from the `i`-th on: the `i`-th is searched one
/// ply shallower for the other side, then [`search_step`] says whether the
/// search ends there (see [`search_end`]) or goes on with the next move.
#[verifier::opaque]
pub open spec fn search_moves(
    p: PositionView,
    color: i8,
    maximizing_player: bool,
    depth: i32,
    moves: Seq<Move>,
    i: int,
    alpha: i32,
    beta: i32,
    best_score: i32,
    best_move: Option<Move>,
    tt: Seq<Option<Entry>>,
    kl: Seq<(Move, i32)>,
) -> (SearchResult, Seq<Option<Entry>>, Seq<(Move, i32)>)
    decreases depth, 0int, moves.len() - i,
{
    if depth <= 0 || i < 0 || i >= moves.len() {
        search_end(p, depth, alpha, best_score, best_move, tt, kl)
    } else {
        let st = search_step(
            p,
            maximizing_player,
            depth,
            moves[i],
            alpha,
            beta,
            best_score,
            best_move,
            search_value(
                after_move(p, moves[i]@),
                alpha,
                beta,
                other_side(color),
                !maximizing_player,
                (depth - 1) as i32,
                tt,
                kl,
            ),
        );
        if st.0 {
            search_end(p, depth, st.1, st.3, st.4, st.5, st.6)
        } else {
            search_moves(p, color, maximizing_player, depth, moves, i + 1, st.1, st.2, st.3, st.4, st.5, st.6)
        }
    }
}

/// What follows the search of move `mv`, given its result `child`: whether
/// the window closed, then alpha, beta, the best score and move, the table
/// and the killer list. A strictly better score (higher when maximizing,
/// lower otherwise) becomes the best and tightens the window; when the
/// window closes, the entry is stored as a bound and the move recorded as a
/// killer.
pub open spec fn search_step(
    p: PositionView,
    maximizing_player: bool,
    depth: i32,
    mv: Move,
    alpha: i32,
    beta: i32,
    best_score: i32,
    best_move: Option<Move>,
    child: (SearchResult, Seq<Option<Entry>>, Seq<(Move, i32)>),
) -> (bool, i32, i32, i32, Option<Move>, Seq<Option<Entry>>, Seq<(Move, i32)>) {
    let score = child.0.score;
    let tt2 = child.1;
    let kl2 = child.2;
    if maximizing_player && score > best_score {
        let a2 = if alpha > score {
            alpha
        } else {
            score
        };
        if beta <= a2 {
            (
                true,
                a2,
                beta,
                score,
                Some(mv),
                stored(
                    tt2,
                    Entry { hash: key_of(p), score, depth, best_move: Some(mv), bound_type: BoundType::LowerBound },
                ),
                killer_put(kl2, mv, score),
            )
        } else {
            (false, a2, beta, score, Some(mv), tt2, kl2)
        }
    } else if !maximizing_player && score < best_score {
        let b2 = if beta < score {
            beta
        } else {
            score
        };
        if b2 <= alpha {
            (
                true,
                alpha,
                b2,
                score,
                Some(mv),
                stored(
                    tt2,
                    Entry { hash: key_of(p), score, depth, best_move: Some(mv), bound_type: BoundType::UpperBound },
                ),
                killer_put(kl2, mv, score),
            )
        } else {
            (false, alpha, b2, score, Some(mv), tt2, kl2)
        }
    } else {
        (false, alpha, beta, best_score, best_move, tt2, kl2)
    }
}

/// The window a search node searches its moves with.
pub open spec fn node_window(tt: Seq<Option<Entry>>, p: PositionView, alpha: i32, beta: i32, depth: i32) -> (i32, i32) {
    if table_answers(tt, p, depth) {
        window_after(entry_for(tt, key_of(p))->Some_0, alpha, beta)
    } else {
        (alpha, beta)
    }
}

/// Whether the table answers a search node without a search.
pub open spec fn node_answered(tt: Seq<Option<Entry>>, p: PositionView, alpha: i32, beta: i32, depth: i32) -> bool {
    table_answers(tt, p, depth) && (entry_for(tt, key_of(p))->Some_0.bound_type is Exact || node_window(
        tt,
        p,
        alpha,
        beta,
        depth,
    ).0 >= node_window(tt, p, alpha, beta, depth).1)
}

/// The three ways a search node ends: answered by the table, without
/// moves, or by the search of its ordered moves.
proof fn lemma_search_node(
    p: PositionView,
    alpha: i32,
    beta: i32,
    color: i8,
    maximizing_player: bool,
    depth: i32,
    tt: Seq<Option<Entry>>,
    kl: Seq<(Move, i32)>,
)
    ensures
        node_answered(tt, p, alpha, beta, depth) ==> search_node(
            p,
            alpha,
            beta,
            color,
            maximizing_player,
            depth,
            tt,
            kl,
        ) == (
            SearchResult {
                score: entry_for(tt, key_of(p))->Some_0.score,
                best_move: entry_for(tt, key_of(p))->Some_0.best_move,
            },
            tt,
            kl,
        ),
        !node_answered(tt, p, alpha, beta, depth) && gen_moves(p, color).len() == 0 ==> search_node(
            p,
            alpha,
            beta,
            color,
            maximizing_player,
            depth,
            tt,
            kl,
        ) == (
            SearchResult {
                score: if maximizing_player {
                    MIN_SCORE
                } else {
                    MAX_SCORE
                },
                best_move: None,
            },
            tt,
            kl,
        ),
        !node_answered(tt, p, alpha, beta, depth) && gen_moves(p, color).len() > 0 ==> search_node(
            p,
            alpha,
            beta,
            color,
            maximizing_player,
            depth,
            tt,
            kl,
        ) == search_moves(
            p,
            color,
            maximizing_player,
            depth,
            stable_sorted(
                gen_moves(p, color),
                killer_keys(gen_moves(p, color), kl),
                gen_moves(p, color).len() as int,
            ).0,
            0,
            node_window(tt, p, alpha, beta, depth).0,
            node_window(tt, p, alpha, beta, depth).1,
            if maximizing_player {
                MIN_SCORE
            } else {
                MAX_SCORE
            },
            None,
            tt,
            kl,
        ),
{
    reveal(search_value);
    reveal(search_node);
    reveal(search_moves);
}

/// One level of [`search_value`] and of [`search_moves`], spelled out.
proof fn lemma_search_unfold(
    p: PositionView,
    alpha: i32,
    beta: i32,
    color: i8,
    maximizing_player: bool,
    depth: i32,
    moves: Seq<Move>,
    i: int,
    best_score: i32,
    best_move: Option<Move>,
    tt: Seq<Option<Entry>>,
    kl: Seq<(Move, i32)>,
)
    ensures
        depth > 0 ==> search_value(p, alpha, beta, color, maximizing_player, depth, tt, kl) == search_node(
            p,
            alpha,
            beta,
            color,
            maximizing_player,
            depth,
            tt,
            kl,
        ),
        depth <= 0 ==> search_value(p, alpha, beta, color, maximizing_player, depth, tt, kl) == (
            SearchResult { score: leaf_score(p, color, maximizing_player), best_move: None },
            tt,
            kl,
        ),
        search_moves(p, color, maximizing_player, depth, moves, i, alpha, beta, best_score, best_move, tt, kl)
            == (if depth <= 0 || i < 0 || i >= moves.len() {
            search_end(p, depth, alpha, best_score, best_move, tt, kl)
        } else {
            let st = search_step(
                p,
                maximizing_player,
                depth,
                moves[i],
                alpha,
                beta,
                best_score,
                best_move,
                search_value(
                    after_move(p, moves[i]@),
                    alpha,
                    beta,
                    other_side(color),
                    !maximizing_player,
                    (depth - 1) as i32,
                    tt,
                    kl,
                ),
            );
            if st.0 {
                search_end(p, depth, st.1, st.3, st.4, st.5, st.6)
            } else {
                search_moves(p, color, maximizing_player, depth, moves, i + 1, st.1, st.2, st.3, st.4, st.5, st.6)
            }
        }),
{
    reveal(search_value);
    reveal(search_node);
    reveal(search_moves);
}

/// What the search does with the score of move `mov` (see
/// [`search_step`]): a strictly better score becomes the best and tightens
/// the window; when the window closes, the entry is stored as a bound, the
/// move recorded as a killer, and `true` returned.
fn record_score(
    Ghost(p): Ghost<PositionView>,
    maximizing_player: bool,
    depth: i32,
    board_key: u64,
    mov: Move,
    score: i32,
    alpha: &mut i32,
    beta: &mut i32,
    best_score: &mut i32,
    best_move: &mut Option<Move>,
    transposition_table: &mut TranspositionTable,
    killer_moves: &mut Vec<(Move, i32)>,
) -> (cut: bool)
    requires
        board_key == key_of(p),
        old(transposition_table).wf(),
    ensures
        final(transposition_table).wf(),
        *final(best_move) == *old(best_move) || *final(best_move) == Some(mov),
        (
            cut,
            *final(alpha),
            *final(beta),
            *final(best_score),
            *final(best_move),
            final(transposition_table)@,
            final(killer_moves)@,
        ) == search_step(
            p,
            maximizing_player,
            depth,
            mov,
            *old(alpha),
            *old(beta),
            *old(best_score),
            *old(best_move),
            (SearchResult { score, best_move: None }, old(transposition_table)@, old(killer_moves)@),
        ),
{
    if maximizing_player && score > *best_score {
        *best_move = Some(mov);
        *best_score = score;
        *alpha = if *alpha > score {
            *alpha
        } else {
            score
        };
        if *beta <= *alpha {
            transposition_table.insert(
                Entry {
                    hash: board_key,
                    score: *best_score,
                    depth,
                    best_move: *best_move,
                    bound_type: BoundType::LowerBound,
                },
            );
            killer_insert(killer_moves, mov, *best_score);
            return true;
        }
    } else if !maximizing_player && score < *best_score {
        *best_move = Some(mov);
        *best_score = score;
        *beta = if *beta < score {
            *beta
        } else {
            score
        };
        if *beta <= *alpha {
            transposition_table.insert(
                Entry {
                    hash: board_key,
                    score: *best_score,
                    depth,
                    best_move: *best_move,
                    bound_type: BoundType::UpperBound,
                },
            );
            killer_insert(killer_moves, mov, *best_score);
            return true;
        }
    }
    false
}

/// Fail-hard alpha-beta over the generator's moves, with a transposition
/// table and killer-move ordering: the result, and the table and killer
/// list it leaves, are [`search_value`] of the position, window, side,
/// depth, table and killer list it starts from. At depth 0 the score is the
/// evaluation for `color` when maximizing, for the other side otherwise. The
/// board is left as it was.
#[verifier::rlimit(100)]
pub fn alpha_beta(
    depth: i32,
    alpha: i32,
    beta: i32,
    color: i8,
    maximizing_player: bool,
    chessboard: &mut Chessboard,
    transposition_table: &mut TranspositionTable,
    killer_moves: &mut Vec<(Move, i32)>,
) -> (r: SearchResult)
    requires
        depth >= 0,
        is_side(color),
        search_ok(old(chessboard)@.current, color, depth as int),
        old(transposition_table).wf(),
    ensures
        final(chessboard)@ == old(chessboard)@,
        final(transposition_table).wf(),
        (r, final(transposition_table)@, final(killer_moves)@) == search_value(
            old(chessboard)@.current,
            alpha,
            beta,
            color,
            maximizing_player,
            depth,
            old(transposition_table)@,
            old(killer_moves)@,
        ),
        depth == 0 ==> r.score == evaluation(
            old(chessboard)@.current,
            if maximizing_player {
                color
            } else {
                other_side(color)
            },
        ) && r.best_move is None,
        depth > 0 && !table_answers(old(transposition_table)@, old(chessboard)@.current, depth) ==> (all_moves(
            old(chessboard)@.current,
            color,
        ).len() == 0 ==> r == (SearchResult {
            score: if maximizing_player {
                MIN_SCORE
            } else {
                MAX_SCORE
            },
            best_move: None,
        })) && (r.best_move matches Some(m) ==> all_moves(old(chessboard)@.current, color).contains(m@)),
    decreases depth,
{
    if depth == 0 {
        let eval_color = if maximizing_player {
            color
        } else {
            -color
        };
        let score = evaluate(chessboard, eval_color);
        proof {
            lemma_search_unfold(
                chessboard@.current,
                alpha,
                beta,
                color,
                maximizing_player,
                depth,
                Seq::empty(),
                0,
                0i32,
                None,
                transposition_table@,
                killer_moves@,
            );
        }
        return SearchResult::new(score, None);
    }
    let ghost b0 = chessboard@;
    let ghost p0 = b0.current;
    let ghost target = search_value(
        p0,
        alpha,
        beta,
        color,
        maximizing_player,
        depth,
        transposition_table@,
        killer_moves@,
    );
    let ghost tt0 = transposition_table@;
    let ghost kl0 = killer_moves@;
    proof {
        lemma_search_unfold(
            p0,
            alpha,
            beta,
            color,
            maximizing_player,
            depth,
            Seq::empty(),
            0,
            0i32,
            None,
            tt0,
            kl0,
        );
        lemma_search_node(p0, alpha, beta, color, maximizing_player, depth, tt0, kl0);
    }
    let ghost alpha0 = alpha;
    let ghost beta0 = beta;
    let mut alpha = alpha;
    let mut beta = beta;
    let board_key: u64 = chessboard.get_hash();
    match transposition_table.get(board_key) {
        Some(entry) => {
            if entry.depth >= depth {
                match entry.bound_type {
                    BoundType::Exact => {
                        return SearchResult::new(entry.score, entry.best_move);
                    },
                    BoundType::LowerBound => {
                        if entry.score > alpha {
                            alpha = entry.score;
                        }
                    },
                    BoundType::UpperBound => {
                        if entry.score < beta {
                            beta = entry.score;
                        }
                    },
                }
                if alpha >= beta {
                    return SearchResult::new(entry.score, entry.best_move);
                }
            }
        },
        None => {},
    }
    proof {
        let en = entry_for(tt0, key_of(p0))->Some_0;
        if table_answers(tt0, p0, depth) {
            assert((alpha, beta) == window_after(en, alpha0, beta0));
        } else {
            assert(alpha == alpha0 && beta == beta0);
        }
        assert((alpha, beta) == node_window(tt0, p0, alpha0, beta0, depth));
        assert(!node_answered(tt0, p0, alpha0, beta0, depth));
    }
    let mut best_score: i32 = if maximizing_player {
        MIN_SCORE
    } else {
        MAX_SCORE
    };
    let mut best_move: Option<Move> = None;
    proof {
        lemma_search_ok_unfold(p0, color, depth as int);
    }
    let generated = generate_moves(chessboard, color);
    proof {
        assert forall|k: int| 0 <= k < generated@.len() implies #[trigger] generated@[k] == gen_moves(
            p0,
            color,
        )[k] by {
            assert(mask_views(generated@)[k] == generated@[k]@);
            lemma_move_of(generated@[k], generated@[k]@);
        }
        assert(generated@ =~= gen_moves(p0, color));
    }
    if generated.len() == 0 {
        return SearchResult::new(
            if maximizing_player {
                MIN_SCORE
            } else {
                MAX_SCORE
            },
            None,
        );
    }
    let moves = order_by_killers(&generated, killer_moves);
    proof {
        assert(target == search_moves(
            p0,
            color,
            maximizing_player,
            depth,
            moves@,
            0,
            alpha,
            beta,
            best_score,
            best_move,
            tt0,
            kl0,
        ));
        lemma_ordered_moves(moves@, generated@, p0, color, depth as int);
    }
    let next_color: i8 = -color;
    let mut i: usize = 0;
    while i < moves.len()
        invariant_except_break
            search_moves(
                p0,
                color,
                maximizing_player,
                depth,
                moves@,
                i as int,
                alpha,
                beta,
                best_score,
                best_move,
                transposition_table@,
                killer_moves@,
            ) == target,
            i == moves.len() ==> search_end(
                p0,
                depth,
                alpha,
                best_score,
                best_move,
                transposition_table@,
                killer_moves@,
            ) == target,
        invariant
            i <= moves.len(),
            chessboard@ == b0,
            b0.current == p0,
            transposition_table.wf(),
            next_color == other_side(color),
            is_side(color),
            depth >= 1,
            board_key == key_of(p0),
            best_move matches Some(m) ==> all_moves(p0, color).contains(m@),
            forall|k: int|
                0 <= k < moves@.len() ==> all_moves(p0, color).contains(#[trigger] moves@[k]@) && can_play(
                    p0,
                    moves@[k]@,
                ) && search_ok(after_move(p0, moves@[k]@), other_side(color), depth - 1),
        ensures
            search_end(p0, depth, alpha, best_score, best_move, transposition_table@, killer_moves@)
                == target,
            best_move matches Some(m) ==> all_moves(p0, color).contains(m@),
            chessboard@ == b0,
            transposition_table.wf(),
        decreases moves.len() - i,
    {
        let mov = moves[i];
        assert(can_play(p0, moves@[i as int]@));
        let ghost alpha_i = alpha;
        let ghost beta_i = beta;
        let ghost best_score_i = best_score;
        let ghost best_move_i = best_move;
        let ghost tt_i = transposition_table@;
        let ghost kl_i = killer_moves@;
        chessboard.make_move(mov);
        let result = alpha_beta(
            depth - 1,
            alpha,
            beta,
            next_color,
            !maximizing_player,
            chessboard,
            transposition_table,
            killer_moves,
        );
        chessboard.undo_move();
        proof {
            lemma_undo_make(b0, mov@);
            assert(after_make(b0, mov@).current == after_move(p0, mov@));
            lemma_search_unfold(
                p0,
                alpha_i,
                beta_i,
                color,
                maximizing_player,
                depth,
                moves@,
                i as int,
                best_score_i,
                best_move_i,
                tt_i,
                kl_i,
            );
            assert(search_value(
                after_move(p0, moves@[i as int]@),
                alpha_i,
                beta_i,
                other_side(color),
                !maximizing_player,
                (depth - 1) as i32,
                tt_i,
                kl_i,
            ) == (result, transposition_table@, killer_moves@));
            assert(search_moves(
                p0,
                color,
                maximizing_player,
                depth,
                moves@,
                i as int,
                alpha_i,
                beta_i,
                best_score_i,
                best_move_i,
                tt_i,
                kl_i,
            ) == target);
            assert(search_step(
                p0,
                maximizing_player,
                depth,
                mov,
                alpha_i,
                beta_i,
                best_score_i,
                best_move_i,
                (result, transposition_table@, killer_moves@),
            ) == search_step(
                p0,
                maximizing_player,
                depth,
                mov,
                alpha_i,
                beta_i,
                best_score_i,
                best_move_i,
                (SearchResult { score: result.score, best_move: None }, transposition_table@, killer_moves@),
            ));
        }
        let cut = record_score(
            Ghost(p0),
            maximizing_player,
            depth,
            board_key,
            mov,
            result.score,
            &mut alpha,
            &mut beta,
            &mut best_score,
            &mut best_move,
            transposition_table,
            killer_moves,
        );
        proof {
            assert(all_moves(p0, color).contains(moves@[i as int]@));
        }
        if cut {
            break ;
        }
        i = i + 1;
        proof {
            lemma_search_unfold(
                p0,
                alpha,
                beta,
                color,
                maximizing_player,
                depth,
                moves@,
                i as int,
                best_score,
                best_move,
                transposition_table@,
                killer_moves@,
            );
        }
    }
    let bound_type = if best_score <= alpha {
        BoundType::UpperBound
    } else {
        BoundType::LowerBound
    };
    transposition_table.insert(Entry { hash: board_key, score: best_score, depth, best_move, bound_type });
    SearchResult::new(best_score, best_move)
}

/// Whether the generator stops on the current position for `color` (see
/// `double_steps_empty`).
pub fn generator_stops(chessboard: &Chessboard, color: i8) -> (r: bool)
    requires
        is_side(color),
    ensures
        r == double_steps_empty(chessboard@.current, color),
{
    if color == WHITE {
        chessboard.get_piece_mask(PAWN, WHITE) & RANK_1 == 0
    } else {
        let pawns = chessboard.get_piece_mask(PAWN, BLACK);
        let all = chessboard.get_black_pieces() | chessboard.get_white_pieces();
        ((pawns & !RANK_0) & !(all >> 8u64)) & RANK_1 == 0
    }
}

/// Whether `mv` can be played on the current position (see `can_play`).
pub fn playable_now(chessboard: &Chessboard, mv: Move) -> (r: bool)
    ensures
        r == can_play(chessboard@.current, mv@),
{
    let from = mv.get_from_mask();
    if from == 0 {
        return false;
    }
    proof {
        crate::bits::lemma_low_index(from);
    }
    let square = from.trailing_zeros() as u64;
    let (piece, _) = chessboard.get_piece_at(square);
    piece != EMPTY && (chessboard.get_white_pieces() | chessboard.get_black_pieces()) & from != 0
}

/// Whether a search of `depth` plies for `color` from the current position
/// runs to its end (see [`search_ok`]): every position it visits before the
/// last ply is one the generator stops on, and every move it gives there
/// can be played. The board is left as it was.
pub fn search_terminates(chessboard: &mut Chessboard, color: i8, depth: i32) -> (r: bool)
    requires
        is_side(color),
    ensures
        r == search_ok(old(chessboard)@.current, color, depth as int),
        final(chessboard)@ == old(chessboard)@,
    decreases depth,
{
    proof {
        reveal(search_ok);
    }
    if depth <= 0 {
        return true;
    }
    let ghost b0 = chessboard@;
    let ghost p0 = b0.current;
    proof {
        lemma_search_ok_unfold(p0, color, depth as int);
    }
    if !generator_stops(chessboard, color) {
        return false;
    }
    let moves = generate_moves(chessboard, color);
    let next_color: i8 = -color;
    let mut i: usize = 0;
    while i < moves.len()
        invariant
            i <= moves.len(),
            chessboard@ == b0,
            b0 == old(chessboard)@,
            b0.current == p0,
            is_side(color),
            next_color == other_side(color),
            depth >= 1,
            double_steps_empty(p0, color),
            mask_views(moves@) == all_moves(p0, color),
            forall|k: int|
                0 <= k < i ==> can_play(p0, #[trigger] all_moves(p0, color)[k]) && search_ok(
                    after_move(p0, all_moves(p0, color)[k]),
                    other_side(color),
                    depth - 1,
                ),
        decreases moves.len() - i,
    {
        let mv = moves[i];
        assert(mask_views(moves@)[i as int] == mv@);
        proof {
            lemma_search_ok_unfold(p0, color, depth as int);
        }
        if !playable_now(chessboard, mv) {
            return false;
        }
        chessboard.make_move(mv);
        let ok = search_terminates(chessboard, next_color, depth - 1);
        chessboard.undo_move();
        proof {
            lemma_undo_make(b0, mv@);
            assert(after_make(b0, mv@).current == after_move(p0, mv@));
            assert(chessboard@ == b0);
            assert(ok == search_ok(after_move(p0, all_moves(p0, color)[i as int]), other_side(color), depth - 1));
        }
        if !ok {
            return false;
        }
        i = i + 1;
    }
    proof {
        lemma_search_ok_unfold(p0, color, depth as int);
    }
    true
}

/// The table's move for `p`, when the table holds an entry for its key.
pub open spec fn table_move(tt: Seq<Option<Entry>>, p: PositionView) -> Option<Move> {
    match entry_for(tt, key_of(p)) {
        Some(e) => e.best_move,
        None => None,
    }
}

/// The ordering key of a root move: its killer score (0 without one) plus
/// 1000 when it is the table's move, negated so that higher sums come first.
pub open spec fn root_key(kl: Seq<(Move, i32)>, tt_move: Option<Move>, m: Move) -> i64 {
    let killer: int = match killer_get(kl, m) {
        Some(s) => s as int,
        None => 0,
    };
    let bonus: int = if tt_move == Some(m) {
        1000
    } else {
        0
    };
    (-(killer + bonus)) as i64
}

/// The ordering keys of root moves.
pub open spec fn root_keys(moves: Seq<Move>, kl: Seq<(Move, i32)>, tt_move: Option<Move>) -> Seq<i64> {
    moves.map_values(|m: Move| root_key(kl, tt_move, m))
}

/// The root moves put in order for a depth: stably by their keys.
pub open spec fn root_order(p: PositionView, moves: Seq<Move>, tt: Seq<Option<Entry>>, kl: Seq<(Move, i32)>) -> Seq<Move> {
    stable_sorted(moves, root_keys(moves, kl, table_move(tt, p)), moves.len() as int).0
}

/// The search of the root moves from the `i`-th on at depth `d`: each is
/// played and searched `d - 1` plies for the other side, minimizing, with
/// window `alpha..MAX_SCORE`; the first move with a strictly higher score
/// becomes the best, a best score of `MAX_SCORE` ends the pass, and a better
/// best score raises alpha. The best move, the table and the killer list.
pub open spec fn root_pass(
    p: PositionView,
    color: i8,
    d: i32,
    moves: Seq<Move>,
    i: int,
    alpha: i32,
    best_score: i32,
    best_move: Option<Move>,
    tt: Seq<Option<Entry>>,
    kl: Seq<(Move, i32)>,
) -> (Option<Move>, Seq<Option<Entry>>, Seq<(Move, i32)>)
    decreases moves.len() - i,
{
    if i < 0 || i >= moves.len() {
        (best_move, tt, kl)
    } else {
        let mv = moves[i];
        let child = search_value(
            after_move(p, mv@),
            alpha,
            MAX_SCORE,
            other_side(color),
            false,
            (d - 1) as i32,
            tt,
            kl,
        );
        let better = child.0.score > best_score;
        let bs = if better {
            child.0.score
        } else {
            best_score
        };
        let bm = if better {
            Some(mv)
        } else {
            best_move
        };
        if bs >= MAX_SCORE {
            (bm, child.1, child.2)
        } else {
            root_pass(p, color, d, moves, i + 1, if bs > alpha {
                bs
            } else {
                alpha
            }, bs, bm, child.1, child.2)
        }
    }
}

/// One depth of the iterative deepening: the moves in their new order, the
/// best move of the depth, the table and the killer list.
pub open spec fn depth_pass(
    p: PositionView,
    color: i8,
    d: i32,
    moves: Seq<Move>,
    tt: Seq<Option<Entry>>,
    kl: Seq<(Move, i32)>,
) -> (Seq<Move>, Option<Move>, Seq<Option<Entry>>, Seq<(Move, i32)>) {
    let sorted = root_order(p, moves, tt, kl);
    let r = root_pass(p, color, d, sorted, 0, MIN_SCORE, MIN_SCORE, None, tt, kl);
    (sorted, r.0, r.1, r.2)
}

/// The state after depths 1 to `n` are completed: the order of the moves,
/// the table, the killer list and the chosen move (that of the last depth
/// that found one).
pub open spec fn deepened(
    p: PositionView,
    color: i8,
    n: int,
    moves: Seq<Move>,
    tt: Seq<Option<Entry>>,
    kl: Seq<(Move, i32)>,
) -> (Seq<Move>, Seq<Option<Entry>>, Seq<(Move, i32)>, Option<Move>)
    decreases n,
{
    if n <= 0 {
        (moves, tt, kl, None)
    } else {
        let prev = deepened(p, color, n - 1, moves, tt, kl);
        let pass = depth_pass(p, color, n as i32, prev.0, prev.1, prev.2);
        (pass.0, pass.2, pass.3, if pass.1 is Some {
            pass.1
        } else {
            prev.3
        })
    }
}

/// Whether depth `d` may start after the previous depth took `last_ms`
/// milliseconds: the estimate, twice that time times `d`, stays within
/// `TIME_CUTOFF`.
pub open spec fn depth_fits(last_ms: u64, d: int) -> bool {
    last_ms as int * d * 2 <= TIME_CUTOFF as int
}

/// Whether depth `d` (at least 1) may start after the previous depth took
/// `last_ms` milliseconds (see [`depth_fits`]).
pub fn next_depth_fits(last_ms: u64, d: i32) -> (r: bool)
    requires
        d >= 1,
    ensures
        r == depth_fits(last_ms, d as int),
{
    proof {
        let a = last_ms as int;
        let b = d as int;
        assert(0 <= a * b <= 0xFFFF_FFFF_FFFF_FFFF * 0x7FFF_FFFF) by (nonlinear_arith)
            requires
                0 <= a <= 0xFFFF_FFFF_FFFF_FFFF,
                0 <= b <= 0x7FFF_FFFF,
        ;
    }
    let estimated_time: u128 = (last_ms as u128) * (d as u128) * 2;
    estimated_time <= TIME_CUTOFF as u128
}

/// The depths a search completed, as recorded: `times` extends `before` by
/// `n` depth times, each depth but the last allowed the next, and the last
/// is the limit or did not allow another.
pub open spec fn completed_depths(times: Seq<u64>, before: Seq<u64>, limit: i32, n: int) -> bool {
    &&& times.len() == before.len() + n
    &&& forall|k: int| 0 <= k < before.len() ==> times[k] == before[k]
    &&& forall|d: int| 1 <= d < n ==> #[trigger] depth_fits(times[before.len() + d - 1], d + 1)
    &&& (n == limit || !depth_fits(times[before.len() + n - 1], n + 1))
}

/// The engine of the single-search mode: a depth limit, its side, and the
/// table and killer moves its searches share.
pub struct Engine {
    depth: i32,
    color: i8,
    transposition_table: TranspositionTable,
    killer_moves: Vec<(Move, i32)>,
    /// The milliseconds each completed depth of its searches took, as
    /// measured, in order.
    times: Ghost<Seq<u64>>,
}

impl Engine {
    /// The engine's depth limit.
    pub closed spec fn depth_limit(&self) -> i32 {
        self.depth
    }

    /// The engine's side.
    pub closed spec fn side(&self) -> i8 {
        self.color
    }

    /// Its table is well formed.
    pub closed spec fn wf(&self) -> bool {
        self.transposition_table.wf()
    }

    /// The slots of the engine's table.
    pub closed spec fn table(&self) -> Seq<Option<Entry>> {
        self.transposition_table@
    }

    /// The engine's killer list.
    pub closed spec fn killers(&self) -> Seq<(Move, i32)> {
        self.killer_moves@
    }

    /// The measured time of each depth its searches completed, in order.
    pub closed spec fn depth_times(&self) -> Seq<u64> {
        self.times@
    }

    /// A single-search engine for `color` searching at most `depth` plies,
    /// with an empty table of `SINGLE_TABLE_MB` megabytes and no killer
    /// moves.
    pub fn new_single(depth: i32, color: i8) -> (r: Engine)
        requires
            SINGLE_TABLE_MB * 1024 * 1024 <= usize::MAX,
        ensures
            r.depth_limit() == depth,
            r.side() == color,
            r.wf(),
    {
        let transposition_table = TranspositionTable::new(SINGLE_TABLE_MB);
        let killer_moves: Vec<(Move, i32)> = Vec::new();
        Engine { depth, color, transposition_table, killer_moves, times: Ghost(Seq::empty()) }
    }

    /// The move the engine chooses on `chessboard` (see
    /// [`Engine::start_single_search`]); the board is left as it was.
    pub fn get_best_move(&mut self, chessboard: &mut Chessboard) -> (r: Option<Move>)
        requires
            old(self).wf(),
            is_side(old(self).side()),
            double_steps_empty(old(chessboard)@.current, old(self).side()),
            search_ok(old(chessboard)@.current, old(self).side(), old(self).depth_limit() as int),
            all_moves(old(chessboard)@.current, old(self).side()).len() > 0,
        ensures
            final(chessboard)@ == old(chessboard)@,
            final(self).wf(),
            final(self).side() == old(self).side(),
            final(self).depth_limit() == old(self).depth_limit(),
            r matches Some(m) ==> all_moves(old(chessboard)@.current, old(self).side()).contains(m@),
            r is None <==> old(self).depth_limit() < 1,
            old(self).depth_limit() >= 1 ==> ({
                let n = final(self).depth_times().len() - old(self).depth_times().len();
                &&& 1 <= n <= old(self).depth_limit()
                &&& completed_depths(
                    final(self).depth_times(),
                    old(self).depth_times(),
                    old(self).depth_limit(),
                    n,
                )
                &&& r == deepened(
                    old(chessboard)@.current,
                    old(self).side(),
                    n,
                    gen_moves(old(chessboard)@.current, old(self).side()),
                    old(self).table(),
                    old(self).killers(),
                ).3
            }),
    {
        self.start_single_search(chessboard)
    }

    /// The root moves put in order for the next depth (see [`root_order`]).
    fn order_root_moves(&self, chessboard: &Chessboard, moves: &Vec<Move>) -> (r: Vec<Move>)
        requires
            self.wf(),
        ensures
            r@ == root_order(chessboard@.current, moves@, self.table(), self.killers()),
            r@.to_multiset() == moves@.to_multiset(),
            r@.len() == moves@.len(),
    {
        let ghost p0 = chessboard@.current;
        let ghost ttm = table_move(self.transposition_table@, p0);
        let tt_move: Option<Move> = match self.transposition_table.get(chessboard.get_hash()) {
        Some(entry) => entry.best_move,
        None => None,
    };
    let mut keys: Vec<i64> = Vec::new();
    let mut j: usize = 0;
    while j < moves.len()
        invariant
            j <= moves.len(),
            keys@.len() == j,
            tt_move == ttm,
            keys@ == root_keys(moves@.take(j as int), self.killer_moves@, ttm),
        decreases moves.len() - j,
    {
        let killer_score: i64 = match killer_lookup(&self.killer_moves, moves[j]) {
            Some(s) => s as i64,
            None => 0,
        };
        let transposition_score: i64 = match tt_move {
            Some(m) => if moves[j] == m {
            1000
            } else {
            0
            },
            None => 0,
        };
        keys.push(-(killer_score + transposition_score));
        j = j + 1;
        assert(keys@ =~= root_keys(moves@.take(j as int), self.killer_moves@, ttm));
    }
    assert(moves@.take(moves.len() as int) =~= moves@);
    let sorted = sort_by_keys(&moves, &keys);
    proof {
        broadcast use vstd::seq_lib::group_to_multiset_ensures;

        assert(sorted@.len() == moves@.len()) by {
            assert(sorted@.to_multiset().len() == moves@.to_multiset().len());
        }
    }
    let ghost tt_d = self.transposition_table@;
    let ghost kl_d = self.killer_moves@;
    proof {
        assert(sorted@ == root_order(p0, moves@, tt_d, kl_d));
    }
        proof {
            broadcast use vstd::seq_lib::group_to_multiset_ensures;

            assert(sorted@.len() == moves@.len()) by {
                assert(sorted@.to_multiset().len() == moves@.to_multiset().len());
            }
        }
        sorted
    }

    /// The search of the root moves at depth `current_depth` (see
    /// [`root_pass`]); the board is left as it was.
    fn search_root(&mut self, chessboard: &mut Chessboard, current_depth: i32, moves: &Vec<Move>) -> (r: Option<Move>)
        requires
            old(self).wf(),
            is_side(old(self).side()),
            1 <= current_depth,
            moves@.len() > 0,
            forall|k: int|
                0 <= k < moves@.len() ==> all_moves(old(chessboard)@.current, old(self).side()).contains(
                    #[trigger] moves@[k]@,
                ) && can_play(old(chessboard)@.current, moves@[k]@) && search_ok(
                    after_move(old(chessboard)@.current, moves@[k]@),
                    other_side(old(self).side()),
                    current_depth - 1,
                ),
        ensures
            final(chessboard)@ == old(chessboard)@,
            final(self).wf(),
            final(self).side() == old(self).side(),
            final(self).depth_limit() == old(self).depth_limit(),
            final(self).depth_times() == old(self).depth_times(),
            (r, final(self).table(), final(self).killers()) == root_pass(
                old(chessboard)@.current,
                old(self).side(),
                current_depth,
                moves@,
                0,
                MIN_SCORE,
                MIN_SCORE,
                None,
                old(self).table(),
                old(self).killers(),
            ),
            r matches Some(m) ==> all_moves(old(chessboard)@.current, old(self).side()).contains(m@),
            current_depth == 1 ==> r is Some,
    {
        let ghost b0 = chessboard@;
        let ghost p0 = b0.current;
        let color = self.color;
        let next_color: i8 = -color;
        let ghost tt_d = self.transposition_table@;
        let ghost kl_d = self.killer_moves@;
        let ghost target_d = root_pass(p0, color, current_depth, moves@, 0, MIN_SCORE, MIN_SCORE, None, tt_d, kl_d);
        let mut alpha: i32 = MIN_SCORE;
        let beta: i32 = MAX_SCORE;
        let mut depth_best_move: Option<Move> = None;
        let mut depth_best_score: i32 = MIN_SCORE;
        let mut i: usize = 0;
        while i < moves.len()
            invariant_except_break
                root_pass(
                    p0,
                    color,
                    current_depth,
                    moves@,
                    i as int,
                    alpha,
                    depth_best_score,
                    depth_best_move,
                    self.transposition_table@,
                    self.killer_moves@,
                ) == target_d,
            invariant
                i <= moves.len(),
                1 <= current_depth,
                self.depth_limit() == old(self).depth_limit(),
                self.side() == old(self).side(),
                self.times@ == old(self).times@,
                color == self.color,
                is_side(color),
                next_color == other_side(color),
                self.wf(),
                chessboard@ == b0,
                b0.current == p0,
                beta == MAX_SCORE,
                forall|k: int|
                    0 <= k < moves@.len() ==> all_moves(p0, color).contains(#[trigger] moves@[k]@)
                        && can_play(p0, moves@[k]@) && search_ok(
                        after_move(p0, moves@[k]@),
                        other_side(color),
                        current_depth - 1,
                    ),
                depth_best_move matches Some(m) ==> all_moves(p0, color).contains(m@),
                depth_best_score != MIN_SCORE ==> depth_best_move is Some,
                current_depth == 1 && i > 0 ==> depth_best_score != MIN_SCORE,
                moves@.len() > 0,
            ensures
                (depth_best_move, self.transposition_table@, self.killer_moves@) == target_d,
                current_depth == 1 ==> depth_best_move is Some,
                depth_best_move matches Some(m) ==> all_moves(p0, color).contains(m@),
                self.depth_limit() == old(self).depth_limit(),
                self.side() == old(self).side(),
                self.times@ == old(self).times@,
                self.wf(),
                chessboard@ == b0,
            decreases moves.len() - i,
        {
            let mv = moves[i];
            assert(can_play(p0, moves@[i as int]@));
            let ghost tt_i = self.transposition_table@;
            let ghost kl_i = self.killer_moves@;
            let ghost alpha_i = alpha;
            let ghost bs_i = depth_best_score;
            let ghost bm_i = depth_best_move;
            chessboard.make_move(mv);
            let result = alpha_beta(
                current_depth - 1,
                alpha,
                beta,
                next_color,
                false,
                chessboard,
                &mut self.transposition_table,
                &mut self.killer_moves,
            );
            chessboard.undo_move();
            proof {
                lemma_undo_make(b0, mv@);
                if current_depth == 1 {
                    lemma_evaluation_bounds(after_move(p0, mv@), color);
                    assert(other_side(next_color) == color);
                }
                assert(after_make(b0, mv@).current == after_move(p0, mv@));
                assert(search_value(
                    after_move(p0, moves@[i as int]@),
                    alpha_i,
                    MAX_SCORE,
                    other_side(color),
                    false,
                    (current_depth - 1) as i32,
                    tt_i,
                    kl_i,
                ) == (result, self.transposition_table@, self.killer_moves@));
            }
            if result.score > depth_best_score {
                depth_best_score = result.score;
                depth_best_move = Some(mv);
            }
            if depth_best_score >= beta {
                break ;
            }
            if depth_best_score > alpha {
                alpha = depth_best_score;
            }
            i = i + 1;
        }
        depth_best_move
    }

    /// Iterative deepening: for each depth from 1 to the limit, the moves
    /// are put in order (killer score plus 1000 for the table's move for
    /// this position, highest first, stably) and each is searched one ply
    /// shallower for the other side, keeping the first move with the best
    /// score; a depth that finds a move replaces the choice. Before each
    /// depth after the first, a depth is given up when the last one's time
    /// times twice the new depth exceeds `TIME_CUTOFF` milliseconds (see
    /// [`next_depth_fits`]). The measured time of each completed depth is
    /// recorded, and the move is the choice after the completed depths (see
    /// [`completed_depths`] and [`deepened`]). `None` exactly when the
    /// depth limit is below 1: at depth 1 every move scores its evaluation,
    /// above the lowest score.
    pub fn start_single_search(&mut self, chessboard: &mut Chessboard) -> (r: Option<Move>)
        requires
            old(self).wf(),
            is_side(old(self).side()),
            double_steps_empty(old(chessboard)@.current, old(self).side()),
            search_ok(old(chessboard)@.current, old(self).side(), old(self).depth_limit() as int),
            all_moves(old(chessboard)@.current, old(self).side()).len() > 0,
        ensures
            final(chessboard)@ == old(chessboard)@,
            final(self).wf(),
            final(self).side() == old(self).side(),
            final(self).depth_limit() == old(self).depth_limit(),
            r matches Some(m) ==> all_moves(old(chessboard)@.current, old(self).side()).contains(m@),
            r is None <==> old(self).depth_limit() < 1,
            old(self).depth_limit() >= 1 ==> ({
                let n = final(self).depth_times().len() - old(self).depth_times().len();
                &&& 1 <= n <= old(self).depth_limit()
                &&& completed_depths(
                    final(self).depth_times(),
                    old(self).depth_times(),
                    old(self).depth_limit(),
                    n,
                )
                &&& r == deepened(
                    old(chessboard)@.current,
                    old(self).side(),
                    n,
                    gen_moves(old(chessboard)@.current, old(self).side()),
                    old(self).table(),
                    old(self).killers(),
                ).3
            }),
    {
        let ghost b0 = chessboard@;
        let ghost p0 = b0.current;
        let color = self.color;
        let generated = generate_moves(chessboard, color);
        proof {
            assert forall|k: int| 0 <= k < generated@.len() implies #[trigger] generated@[k] == gen_moves(
                p0,
                color,
            )[k] by {
                assert(mask_views(generated@)[k] == generated@[k]@);
                lemma_move_of(generated@[k], generated@[k]@);
            }
            assert(generated@ =~= gen_moves(p0, color));
        }
        let ghost tt0 = self.transposition_table@;
        let ghost kl0 = self.killer_moves@;
        let mut moves = generated;
        proof {
            assert(moves@.to_multiset() == generated@.to_multiset());
        }
        let mut best_move: Option<Move> = None;
        let mut last_time: u64 = 0;
        let next_color: i8 = -color;
        let mut current_depth: i32 = 1;
        let ghost t0 = self.times@;
        let ghost mut done: int = 0;
        while current_depth <= self.depth
            invariant_except_break
                (moves@, self.transposition_table@, self.killer_moves@, best_move) == deepened(
                    p0,
                    color,
                    current_depth - 1,
                    generated@,
                    tt0,
                    kl0,
                ),
                current_depth > 1 ==> best_move == deepened(p0, color, current_depth - 1, generated@, tt0, kl0).3,
                done == current_depth - 1,
                self.times@.len() == t0.len() + done,
                forall|k: int| 0 <= k < t0.len() ==> self.times@[k] == t0[k],
                forall|d: int| 1 <= d < done ==> #[trigger] depth_fits(self.times@[t0.len() + d - 1], d + 1),
                current_depth > 1 ==> last_time == self.times@[t0.len() + current_depth - 2],
                done == 0 ==> self.times@ == t0,
            invariant
                1 <= current_depth,
                current_depth <= self.depth || self.depth < 1,
                t0 == old(self).times@,
                tt0 == old(self).transposition_table@,
                kl0 == old(self).killer_moves@,
                generated@ == gen_moves(p0, color),
                self.depth_limit() == old(self).depth_limit(),
                self.side() == old(self).side(),
                color == self.color,
                is_side(color),
                next_color == other_side(color),
                self.wf(),
                chessboard@ == b0,
                b0.current == p0,
                moves@.to_multiset() == generated@.to_multiset(),
                mask_views(generated@) == all_moves(p0, color),
                search_ok(p0, color, self.depth as int),
                best_move matches Some(m) ==> all_moves(p0, color).contains(m@),
                self.depth < 1 ==> best_move is None,
                current_depth > 1 ==> best_move is Some,
                moves@.len() > 0,
            ensures
                self.depth >= 1 ==> 1 <= done <= self.depth && completed_depths(self.times@, t0, self.depth, done)
                    && best_move == deepened(p0, color, done, generated@, tt0, kl0).3,
                self.depth < 1 ==> done == 0 && self.times@ == t0,
                self.depth >= 1 ==> best_move is Some,
                self.depth < 1 ==> best_move is None,
                self.depth_limit() == old(self).depth_limit(),
                self.side() == old(self).side(),
                self.wf(),
                chessboard@ == b0,
                best_move matches Some(m) ==> all_moves(p0, color).contains(m@),
            decreases self.depth - current_depth + 1,
        {
            let start_time = now();
            let sorted = self.order_root_moves(chessboard, &moves);
            moves = sorted;
            if current_depth > 1 {
                if !next_depth_fits(last_time, current_depth) {
                    proof {
                        assert(!depth_fits(self.times@[t0.len() + done - 1], done + 1));
                        assert(completed_depths(self.times@, t0, self.depth, done));
                    }
                    break ;
                }
            }
            proof {
                lemma_search_ok_shallower(p0, color, self.depth as int, current_depth as int);
                lemma_ordered_moves(moves@, generated@, p0, color, current_depth as int);
            }
            let depth_best_move = self.search_root(chessboard, current_depth, &moves);
            if let Some(m) = depth_best_move {
                best_move = Some(m);
            }
            proof {
                assert(deepened(p0, color, current_depth as int, generated@, tt0, kl0) == (
                    moves@,
                    self.transposition_table@,
                    self.killer_moves@,
                    best_move,
                ));
            }
            let ms = as_millis(&elapsed(&start_time));
            last_time = #[verifier::truncate] (ms as u64);
            let ghost before_times = self.times@;
            self.times = Ghost(self.times@.push(last_time));
            proof {
                done = done + 1;
                assert(self.times@.len() == before_times.len() + 1);
                assert(self.times@.len() == t0.len() + done);
                assert forall|k: int| 0 <= k < t0.len() implies self.times@[k] == t0[k] by {
                    assert(self.times@[k] == before_times[k]);
                }
                assert(self.times@[t0.len() + done - 1] == last_time);
                assert forall|d: int| 1 <= d < done implies #[trigger] depth_fits(
                    self.times@[t0.len() + d - 1],
                    d + 1,
                ) by {
                    assert(self.times@[t0.len() + d - 1] == before_times[t0.len() + d - 1]);
                }
            }
            if current_depth == self.depth {
                proof {
                    assert(completed_depths(self.times@, t0, self.depth, done));
                }
                break ;
            }
            current_depth = current_depth + 1;
        }
        best_move
    }
}

} // verus!
