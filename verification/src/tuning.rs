//! Self-play tuning of the evaluation weights: weight sets, their random
//! creation and clamping after a mutation, the round-robin schedule, and a
//! game between two engines.
use vstd::prelude::*;

verus! {

use rand::rngs::StdRng;
use rand::Rng;
use crate::chess_move::{Move, MoveType};
use crate::chessboard::{Chessboard, BoardView, starting_view};
use crate::constants::{WHITE, BLACK, is_color};
use crate::engine::{
    Engine,
    EngineView,
    engine_ok,
    params_bounded,
    last_best,
    one_ply_scores,
    engine_choice,
    extends,
    over_limit_from,
    lemma_over_limit_prefix,
};
use crate::heuristics::HeuristicParams as CoreHeuristicParams;
use crate::movegenerator::{
    generate_moves,
    legal_moves,
    en_passant_in_range,
    views,
    after_move,
    mover_piece,
    mover_color,
    lemma_legal_playable,
};

/// rand's `Rng::random_range` over `lo..hi` on a `StdRng`: some value with
/// `lo <= r < hi`. The range must not be empty (rand panics on an empty one).
#[verifier::external_body]
fn random_i32_in(rng: &mut StdRng, lo: i32, hi: i32) -> (r: i32)
    requires
        lo < hi,
    ensures
        lo <= r < hi,
{
    rng.random_range(lo..hi)
}

/// rand's `Rng::random_range` over `0..n` on a `StdRng`: some index below
/// `n`, which must not be zero (rand panics on an empty range).
#[verifier::external_body]
fn random_index(rng: &mut StdRng, n: usize) -> (r: usize)
    requires
        n > 0,
    ensures
        r < n,
{
    rng.random_range(0..n)
}

/// A set of evaluation weights under tuning.
#[derive(Clone, Copy, Debug)]
pub struct HeuristicParams {
    pub two_middle_pawns_weight: i32,
    pub castling_weight: i32,
    pub knight_outpost_weight: i32,
    pub development_weight: i32,
    pub mobility_weight: i32,
}

/// `value` brought into `[min, max]`: below `min` it becomes `min`, above
/// `max` it becomes `max`.
pub open spec fn clamp_spec(value: int, min: int, max: int) -> int {
    if value < min {
        min
    } else if value > max {
        max
    } else {
        value
    }
}

/// `value` brought into `[min, max]`: below `min` it becomes `min`, above
/// `max` it becomes `max`.
pub fn clamp(value: i32, min: i32, max: i32) -> (r: i32)
    ensures
        r == clamp_spec(value as int, min as int, max as int),
{
    if value < min {
        min
    } else if value > max {
        max
    } else {
        value
    }
}

/// The engine's weights for a tuned set: the same five numbers.
pub open spec fn core_params(p: HeuristicParams) -> CoreHeuristicParams {
    CoreHeuristicParams {
        two_middle_pawns_weight: p.two_middle_pawns_weight,
        castling_weight: p.castling_weight,
        development_weight: p.development_weight,
        mobility_weight: p.mobility_weight,
        knight_outpost_weight: p.knight_outpost_weight,
    }
}

/// The lowest and highest weight a mutation can produce.
pub const MIN_WEIGHT: i32 = 1;
pub const MAX_WEIGHT: i32 = 100;

impl HeuristicParams {
    /// Every weight 10, as the engine's defaults.
    pub fn default() -> (r: Self)
        ensures
            r.two_middle_pawns_weight == 10,
            r.castling_weight == 10,
            r.knight_outpost_weight == 10,
            r.development_weight == 10,
            r.mobility_weight == 10,
    {
        HeuristicParams {
            two_middle_pawns_weight: 10,
            castling_weight: 10,
            knight_outpost_weight: 10,
            development_weight: 10,
            mobility_weight: 10,
        }
    }

    /// Random weights, each drawn from `1..50`.
    pub fn random(rng: &mut StdRng) -> (r: Self)
        ensures
            1 <= r.two_middle_pawns_weight < 50,
            1 <= r.castling_weight < 50,
            1 <= r.knight_outpost_weight < 50,
            1 <= r.development_weight < 50,
            1 <= r.mobility_weight < 50,
    {
        let two_middle_pawns_weight = random_i32_in(rng, 1, 50);
        let castling_weight = random_i32_in(rng, 1, 50);
        let knight_outpost_weight = random_i32_in(rng, 1, 50);
        let development_weight = random_i32_in(rng, 1, 50);
        let mobility_weight = random_i32_in(rng, 1, 50);
        HeuristicParams {
            two_middle_pawns_weight,
            castling_weight,
            knight_outpost_weight,
            development_weight,
            mobility_weight,
        }
    }

    /// The weights a mutation ends with, from the perturbed values of each
    /// weight: each is clamped into `[MIN_WEIGHT, MAX_WEIGHT]`.
    pub fn from_perturbed(
        two_middle_pawns: i32,
        castling: i32,
        knight_outpost: i32,
        development: i32,
        mobility: i32,
    ) -> (r: Self)
        ensures
            r.two_middle_pawns_weight == clamp_spec(two_middle_pawns as int, 1, 100),
            r.castling_weight == clamp_spec(castling as int, 1, 100),
            r.knight_outpost_weight == clamp_spec(knight_outpost as int, 1, 100),
            r.development_weight == clamp_spec(development as int, 1, 100),
            r.mobility_weight == clamp_spec(mobility as int, 1, 100),
    {
        HeuristicParams {
            two_middle_pawns_weight: clamp(two_middle_pawns, MIN_WEIGHT, MAX_WEIGHT),
            castling_weight: clamp(castling, MIN_WEIGHT, MAX_WEIGHT),
            knight_outpost_weight: clamp(knight_outpost, MIN_WEIGHT, MAX_WEIGHT),
            development_weight: clamp(development, MIN_WEIGHT, MAX_WEIGHT),
            mobility_weight: clamp(mobility, MIN_WEIGHT, MAX_WEIGHT),
        }
    }

    /// The engine's weights for this set.
    pub fn into_core(&self) -> (r: CoreHeuristicParams)
        ensures
            r == core_params(*self),
    {
        CoreHeuristicParams {
            two_middle_pawns_weight: self.two_middle_pawns_weight,
            castling_weight: self.castling_weight,
            development_weight: self.development_weight,
            mobility_weight: self.mobility_weight,
            knight_outpost_weight: self.knight_outpost_weight,
        }
    }
}

/// A clamped weight stays in `[MIN_WEIGHT, MAX_WEIGHT]`, and a weight already
/// there is kept.
pub proof fn lemma_clamp_range(value: int)
    ensures
        1 <= clamp_spec(value, 1, 100) <= 100,
        1 <= value <= 100 ==> clamp_spec(value, 1, 100) == value,
{
}

/// The round-robin pairs `(i, j)` with `j` from `i + 1` to `n - 1`.
pub open spec fn matchup_row(i: int, n: int) -> Seq<(usize, usize)> {
    Seq::new((n - i - 1) as nat, |t: int| (i as usize, (i + 1 + t) as usize))
}

/// The round-robin pairs of the first `k` rows.
pub open spec fn matchups_below(n: int, k: int) -> Seq<(usize, usize)>
    decreases k,
{
    if k <= 0 {
        Seq::empty()
    } else {
        matchups_below(n, k - 1) + matchup_row(k - 1, n)
    }
}

/// Every pair of `n` players once: `(0, 1), (0, 2), .., (1, 2), ..`.
pub open spec fn matchups_spec(n: int) -> Seq<(usize, usize)> {
    matchups_below(n, n)
}

proof fn lemma_matchups_below_cover(n: int, k: int)
    requires
        0 <= k <= n,
        n <= usize::MAX,
    ensures
        forall|i: usize, j: usize|
            #[trigger] matchups_below(n, k).contains((i, j)) <==> (i < k && i < j < n),
    decreases k,
{
    if k > 0 {
        lemma_matchups_below_cover(n, k - 1);
        let a = matchups_below(n, k - 1);
        let b = matchup_row(k - 1, n);
        assert forall|i: usize, j: usize| #[trigger]
            matchups_below(n, k).contains((i, j)) <==> (i < k && i < j < n) by {
            if matchups_below(n, k).contains((i, j)) {
                let t = choose|t: int| 0 <= t < (a + b).len() && (a + b)[t] == (i, j);
                if t < a.len() {
                    assert(a[t] == (i, j));
                    assert(a.contains((i, j)));
                } else {
                    assert(b[t - a.len()] == (i, j));
                }
            }
            if i < k && i < j < n {
                if i < k - 1 {
                    assert(a.contains((i, j)));
                    let t = choose|t: int| 0 <= t < a.len() && a[t] == (i, j);
                    assert((a + b)[t] == (i, j));
                } else {
                    let t = j - i - 1;
                    assert(b[t] == (i, j));
                    assert((a + b)[a.len() + t] == (i, j));
                }
            }
        }
    }
}

/// The schedule holds a pair exactly when its first player comes before its
/// second: every player meets every other one.
pub proof fn lemma_matchups_cover(n: usize)
    ensures
        forall|i: usize, j: usize| #[trigger] matchups_spec(n as int).contains((i, j)) <==> i < j < n,
{
    lemma_matchups_below_cover(n as int, n as int);
}

/// Every pair of `n` players once, in the order `(0, 1), (0, 2), .., (1, 2), ..`.
pub fn matchups(n: usize) -> (r: Vec<(usize, usize)>)
    ensures
        r@ == matchups_spec(n as int),
{
    let mut out: Vec<(usize, usize)> = Vec::new();
    let mut i: usize = 0;
    while i < n
        invariant
            i <= n,
            out@ == matchups_below(n as int, i as int),
        decreases n - i,
    {
        let ghost before = out@;
        let mut j: usize = i + 1;
        while j < n
            invariant
                i < n,
                i + 1 <= j <= n,
                out@ == before + matchup_row(i as int, j as int),
            decreases n - j,
        {
            out.push((i, j));
            assert(before + matchup_row(i as int, (j + 1) as int) =~= (before + matchup_row(
                i as int,
                j as int,
            )).push((i, j)));
            j = j + 1;
        }
        assert(out@ =~= matchups_below(n as int, (i + 1) as int));
        i = i + 1;
    }
    out
}

/// Colour-swapped pairs of games per matchup: half the games asked for,
/// rounded up, and at least one.
pub fn pairs_per_matchup(games_per_matchup: u32) -> (r: u32)
    requires
        games_per_matchup < u32::MAX,
    ensures
        r == (if games_per_matchup > 2 {
            games_per_matchup as int
        } else {
            2
        } + 1) / 2,
{
    let games = if games_per_matchup > 2 {
        games_per_matchup
    } else {
        2
    };
    (games + 1) / 2
}

/// The table memory of each engine: the memory shared by two engines per
/// active thread (at least one thread), and at least one megabyte.
pub open spec fn engine_share(available: int, threads: int) -> int {
    let t = if threads > 1 {
        threads
    } else {
        1
    };
    let share = available / (t * 2);
    if share > 1 {
        share
    } else {
        1
    }
}

/// The table memory of each engine: the memory shared by two engines per
/// active thread (at least one thread), and at least one megabyte.
pub fn memory_per_engine(available_memory: usize, active_threads: usize) -> (r: usize)
    requires
        active_threads <= usize::MAX / 2,
    ensures
        r == engine_share(available_memory as int, active_threads as int),
{
    let threads = if active_threads > 1 {
        active_threads
    } else {
        1
    };
    let share = available_memory / (threads * 2);
    if share > 1 {
        share
    } else {
        1
    }
}

/// How a game ended.
#[derive(Clone, Copy, Debug, PartialEq, Eq, Structural)]
pub enum GameOutcome {
    WhiteWin,
    Draw,
    BlackWin,
}

/// How a game ended for one player.
#[derive(Clone, Copy, Debug, PartialEq, Eq, Structural)]
pub enum Verdict {
    Win,
    Draw,
    Loss,
}

/// The result of a game: who was reported as white and as black, and how
/// it ended; with it, the clock readings each engine's searches made and the
/// index of a random first move.
#[derive(Clone, Copy)]
pub struct GameResult {
    pub white_id: u32,
    pub black_id: u32,
    pub outcome: GameOutcome,
    /// The clock readings of the searches of the engine that played white.
    pub white_readings: Ghost<Seq<u128>>,
    /// The clock readings of the searches of the engine that played black.
    pub black_readings: Ghost<Seq<u128>>,
    /// The index, among white's legal moves, of a random first move.
    pub opening: Ghost<int>,
}

impl GameResult {
    /// A result with no clock readings recorded.
    pub fn new(white_id: u32, black_id: u32, outcome: GameOutcome) -> (r: GameResult)
        ensures
            r.white_id == white_id,
            r.black_id == black_id,
            r.outcome == outcome,
            r.white_clock_readings() == Seq::<u128>::empty(),
            r.black_clock_readings() == Seq::<u128>::empty(),
    {
        GameResult {
            white_id,
            black_id,
            outcome,
            white_readings: Ghost(Seq::empty()),
            black_readings: Ghost(Seq::empty()),
            opening: Ghost(0),
        }
    }

    /// The clock readings of the searches of the engine that played white.
    pub open spec fn white_clock_readings(&self) -> Seq<u128> {
        self.white_readings@
    }

    /// The clock readings of the searches of the engine that played black.
    pub open spec fn black_clock_readings(&self) -> Seq<u128> {
        self.black_readings@
    }

    /// The index, among white's legal moves, of a random first move.
    pub open spec fn opening_index(&self) -> int {
        self.opening@
    }

    /// The game as the white player saw it.
    pub fn verdict_for_white(&self) -> (r: Verdict)
        ensures
            r == (match self.outcome {
                GameOutcome::WhiteWin => Verdict::Win,
                GameOutcome::Draw => Verdict::Draw,
                GameOutcome::BlackWin => Verdict::Loss,
            }),
    {
        match self.outcome {
            GameOutcome::WhiteWin => Verdict::Win,
            GameOutcome::Draw => Verdict::Draw,
            GameOutcome::BlackWin => Verdict::Loss,
        }
    }

    /// The game as the black player saw it.
    pub fn verdict_for_black(&self) -> (r: Verdict)
        ensures
            r == (match self.outcome {
                GameOutcome::WhiteWin => Verdict::Loss,
                GameOutcome::Draw => Verdict::Draw,
                GameOutcome::BlackWin => Verdict::Win,
            }),
    {
        match self.outcome {
            GameOutcome::WhiteWin => Verdict::Loss,
            GameOutcome::Draw => Verdict::Draw,
            GameOutcome::BlackWin => Verdict::Win,
        }
    }
}

/// The game counts of a variant.
#[derive(Clone, Copy, Debug)]
pub struct GameTally {
    pub games_played: u32,
    pub draw_count: u32,
    pub loss_count: u32,
}

impl GameTally {
    /// No game played.
    pub fn new() -> (r: GameTally)
        ensures
            r.games_played == 0,
            r.draw_count == 0,
            r.loss_count == 0,
    {
        GameTally { games_played: 0, draw_count: 0, loss_count: 0 }
    }

    /// Counts one more game, and a draw or a loss where it was one.
    pub fn record(&mut self, verdict: Verdict)
        requires
            old(self).games_played < u32::MAX,
            old(self).draw_count < u32::MAX,
            old(self).loss_count < u32::MAX,
        ensures
            final(self).games_played == old(self).games_played + 1,
            final(self).draw_count == old(self).draw_count + (if verdict == Verdict::Draw {
                1int
            } else {
                0
            }),
            final(self).loss_count == old(self).loss_count + (if verdict == Verdict::Loss {
                1int
            } else {
                0
            }),
    {
        self.games_played = self.games_played + 1;
        match verdict {
            Verdict::Win => {},
            Verdict::Draw => {
                self.draw_count = self.draw_count + 1;
            },
            Verdict::Loss => {
                self.loss_count = self.loss_count + 1;
            },
        }
    }
}

/// The position after one ply.
#[verifier::opaque]
pub open spec fn played(v: BoardView, mv: (u16, MoveType)) -> BoardView {
    after_move(v, mv)
}

/// The legal moves of `color` on `v`, as the game loop sees them.
#[verifier::opaque]
pub open spec fn legal_of(v: BoardView, color: u8) -> Seq<(u16, MoveType)> {
    legal_moves(v, color)
}

/// The position after `plies` from `v`, each played by the piece and color
/// it records.
#[verifier::opaque]
pub open spec fn after_plies(v: BoardView, plies: Seq<(u16, MoveType)>) -> BoardView
    decreases plies.len(),
{
    if plies.len() == 0 {
        v
    } else {
        played(after_plies(v, plies.drop_last()), plies.last())
    }
}

/// White plays the even plies, black the odd ones.
pub open spec fn ply_color(i: int) -> u8 {
    if i % 2 == 0 {
        WHITE
    } else {
        BLACK
    }
}

/// Each ply is a legal move of the side to move, white first.
#[verifier::opaque]
pub open spec fn legal_plies(v: BoardView, plies: Seq<(u16, MoveType)>) -> bool {
    forall|i: int|
        0 <= i < plies.len() ==> legal_moves(after_plies(v, plies.take(i)), ply_color(i)).contains(
            #[trigger] plies[i],
        )
}

/// The number of plies after which an undecided game is a draw.
pub open spec fn ply_limit() -> int {
    200
}

/// A game of legal plies from `v` that ends in `outcome`: black wins when
/// white, to move, has no legal move; white wins when black has none; a draw
/// when a hundred moves of each side were played.
pub open spec fn ends_in(v: BoardView, plies: Seq<(u16, MoveType)>, outcome: GameOutcome) -> bool {
    &&& legal_plies(v, plies)
    &&& match outcome {
        GameOutcome::BlackWin => plies.len() % 2 == 0 && plies.len() < ply_limit() && legal_moves(
            after_plies(v, plies),
            WHITE,
        ).len() == 0,
        GameOutcome::WhiteWin => plies.len() % 2 == 1 && plies.len() < ply_limit() && legal_moves(
            after_plies(v, plies),
            BLACK,
        ).len() == 0,
        GameOutcome::Draw => plies.len() == ply_limit(),
    }
}

proof fn lemma_push_ply(v: BoardView, plies: Seq<(u16, MoveType)>, mv: (u16, MoveType))
    requires
        legal_plies(v, plies),
        legal_of(after_plies(v, plies), ply_color(plies.len() as int)).contains(mv),
    ensures
        legal_plies(v, plies.push(mv)),
        after_plies(v, plies.push(mv)) == played(after_plies(v, plies), mv),
{
    reveal(legal_plies);
    reveal(after_plies);
    reveal(legal_of);
    assert(plies.push(mv).drop_last() =~= plies);
    let p2 = plies.push(mv);
    assert forall|i: int| 0 <= i < p2.len() implies legal_moves(
        after_plies(v, p2.take(i)),
        ply_color(i),
    ).contains(#[trigger] p2[i]) by {
        if i < plies.len() {
            assert(p2.take(i) =~= plies.take(i));
            assert(p2[i] == plies[i]);
        } else {
            assert(p2.take(i) =~= plies);
        }
    }
}

proof fn lemma_no_plies(v: BoardView)
    ensures
        legal_plies(v, Seq::empty()),
        after_plies(v, Seq::empty()) == v,
{
    reveal(legal_plies);
    reveal(after_plies);
}

proof fn lemma_ends_in(v: BoardView, plies: Seq<(u16, MoveType)>, outcome: GameOutcome)
    requires
        legal_plies(v, plies),
        match outcome {
            GameOutcome::BlackWin => plies.len() % 2 == 0 && plies.len() < ply_limit() && legal_of(
                after_plies(v, plies),
                WHITE,
            ).len() == 0,
            GameOutcome::WhiteWin => plies.len() % 2 == 1 && plies.len() < ply_limit() && legal_of(
                after_plies(v, plies),
                BLACK,
            ).len() == 0,
            GameOutcome::Draw => plies.len() == ply_limit(),
        },
    ensures
        ends_in(v, plies, outcome),
{
    reveal(ends_in);
    reveal(legal_of);
}

/// The move a one-ply engine with weights `h` chooses for `color` on `v`:
/// the last legal move with the highest evaluation, from the opponent's
/// side, of the position it leads to; none without a legal move.
#[verifier::opaque]
pub open spec fn one_ply_choice(v: BoardView, color: u8, h: CoreHeuristicParams) -> Option<(u16, MoveType)> {
    let legal = legal_moves(v, color);
    if legal.len() == 0 {
        None
    } else {
        Some(legal[last_best(one_ply_scores(v, color, legal, h))])
    }
}

/// One round between one-ply engines with weights `wh` (white) and `bh`
/// (black): black wins when white has no move, white wins when black then
/// has none; otherwise both moves are played. The outcome, if the game
/// ended, and the position after the round.
pub open spec fn one_ply_round(v: BoardView, wh: CoreHeuristicParams, bh: CoreHeuristicParams) -> (Option<GameOutcome>, BoardView) {
    match one_ply_choice(v, WHITE, wh) {
        None => (Some(GameOutcome::BlackWin), v),
        Some(wm) => {
            let v1 = played(v, wm);
            match one_ply_choice(v1, BLACK, bh) {
                None => (Some(GameOutcome::WhiteWin), v1),
                Some(bm) => (None, played(v1, bm)),
            }
        },
    }
}

/// The outcome of at most `rounds` rounds between one-ply engines from
/// `v`: a draw when every round was played.
pub open spec fn one_ply_game(v: BoardView, wh: CoreHeuristicParams, bh: CoreHeuristicParams, rounds: nat) -> GameOutcome
    decreases rounds,
{
    if rounds == 0 {
        GameOutcome::Draw
    } else {
        let (o, v2) = one_ply_round(v, wh, bh);
        match o {
            Some(x) => x,
            None => one_ply_game(v2, wh, bh, (rounds - 1) as nat),
        }
    }
}

/// Whether a tuning population is large enough: at least four weight sets.
pub fn population_size_ok(population_size: u32) -> (r: bool)
    ensures
        r == (population_size >= 4),
{
    population_size >= 4
}

/// Whether a tuning search depth is in range: 2 to 20 plies.
pub fn search_depth_ok(search_depth: i32) -> (r: bool)
    ensures
        r == (2 <= search_depth && search_depth <= 20),
{
    2 <= search_depth && search_depth <= 20
}

/// The survivors the mutants of the next generation descend from: one
/// survivor index, drawn at random, for each place that `survivors`
/// survivors leave free in a population of `population_size`.
pub fn mutant_parents(rng: &mut StdRng, survivors: usize, population_size: usize) -> (r: Vec<usize>)
    requires
        survivors > 0 || population_size <= survivors,
    ensures
        r@.len() == (if survivors < population_size {
            population_size - survivors
        } else {
            0
        }),
        forall|k: int| 0 <= k < r@.len() ==> #[trigger] r@[k] < survivors,
{
    let mut parents: Vec<usize> = Vec::new();
    let mut filled: usize = survivors;
    while filled < population_size
        invariant
            survivors <= filled <= population_size || (filled == survivors && population_size <= survivors),
            survivors > 0 || population_size <= survivors,
            parents@.len() == filled - survivors,
            forall|k: int| 0 <= k < parents@.len() ==> #[trigger] parents@[k] < survivors,
        decreases population_size - filled,
    {
        let k = random_index(rng, survivors);
        parents.push(k);
        filled = filled + 1;
    }
    parents
}

/// Plays `mv` on `board` with the piece and color it records.
fn play(board: &mut Chessboard, mv: &Move, Ghost(color): Ghost<u8>)
    requires
        is_color(color),
        en_passant_in_range(old(board)@, color),
        legal_of(old(board)@, color).contains(mv@),
    ensures
        final(board)@ == played(old(board)@, mv@),
        final(board)@.en_passant <= 8,
{
    proof {
        reveal(played);
        reveal(legal_of);
        lemma_legal_playable(old(board)@, color, mv@);
        crate::chessboard::lemma_move_piece_en_passant(
            old(board)@,
            mover_piece(mv@),
            mover_color(mv@),
            mv@,
        );
    }
    board.move_piece(mv.get_piece_type(), mv.get_color(), mv);
}

/// One round between engines with settings `we` (white) and `be` (black)
/// that choose as [`engine_choice`] says: black wins when white has no move,
/// white wins when black then has none; otherwise both moves are played.
/// The outcome, if the game ended, and the position after the round.
pub open spec fn engine_round(v: BoardView, we: EngineView, be: EngineView) -> (Option<GameOutcome>, BoardView) {
    match engine_choice(we, v) {
        None => (Some(GameOutcome::BlackWin), v),
        Some(wm) => {
            let v1 = played(v, wm@);
            match engine_choice(be, v1) {
                None => (Some(GameOutcome::WhiteWin), v1),
                Some(bm) => (None, played(v1, bm@)),
            }
        },
    }
}

/// The outcome of at most `rounds` rounds between such engines from `v`: a
/// draw when every round was played.
pub open spec fn engine_game(v: BoardView, we: EngineView, be: EngineView, rounds: nat) -> GameOutcome
    decreases rounds,
{
    if rounds == 0 {
        GameOutcome::Draw
    } else {
        let (o, v2) = engine_round(v, we, be);
        match o {
            Some(x) => x,
            None => engine_game(v2, we, be, (rounds - 1) as nat),
        }
    }
}

/// An opening round in which white plays its `k`-th legal move, drawn at
/// random, and black answers as [`engine_choice`] says.
pub open spec fn opening_round(v: BoardView, k: int, be: EngineView) -> (Option<GameOutcome>, BoardView) {
    let legal = legal_of(v, WHITE);
    if legal.len() == 0 {
        (Some(GameOutcome::BlackWin), v)
    } else {
        let v1 = played(v, legal[k]);
        match engine_choice(be, v1) {
            None => (Some(GameOutcome::WhiteWin), v1),
            Some(bm) => (None, played(v1, bm@)),
        }
    }
}

/// The outcome of at most `rounds` rounds from `v` whose first white move is
/// white's `k`-th legal move, the engines choosing the rest.
pub open spec fn opened_game(v: BoardView, we: EngineView, be: EngineView, k: int, rounds: nat) -> GameOutcome {
    if rounds == 0 {
        GameOutcome::Draw
    } else {
        let (o, v2) = opening_round(v, k, be);
        match o {
            Some(x) => x,
            None => engine_game(v2, we, be, (rounds - 1) as nat),
        }
    }
}

/// The game a tuning match plays from `v` when no clock runs out: with a
/// random first move, white's `opening`-th legal move and then the engines'
/// choices; otherwise the engines' choices throughout.
pub open spec fn tuning_game(random_first_move: bool, v: BoardView, we: EngineView, be: EngineView, opening: int) -> GameOutcome {
    if random_first_move {
        opened_game(v, we, be, opening, 100)
    } else {
        engine_game(v, we, be, 100)
    }
}

/// No clock reading of `readings` exceeded the time limit.
pub open spec fn in_time(readings: Seq<u128>) -> bool {
    !over_limit_from(readings, 0)
}

/// The settings of a tuning engine.
pub open spec fn tuning_engine(depth: u32, color: u8, params: HeuristicParams, memory: usize) -> EngineView {
    EngineView { depth, color, heuristics: core_params(params), available_memory_mb: memory }
}

/// White's move: the `k`-th legal move, `k` drawn at random, when
/// `random_first`, the engine's choice otherwise; `None` exactly when white
/// has no legal move. The drawn index comes back with it.
fn white_choice(board: &Chessboard, white_engine: &mut Engine, random_first: bool, rng: &mut StdRng) -> (r: (Option<Move>, Ghost<int>))
    requires
        engine_ok(old(white_engine)@),
        old(white_engine)@.color == WHITE,
        board@.en_passant <= 8,
    ensures
        final(white_engine)@ == old(white_engine)@,
        r.0 is None <==> legal_of(board@, WHITE).len() == 0,
        r.0 matches Some(m) ==> legal_of(board@, WHITE).contains(m@),
        !random_first && old(white_engine)@.depth == 1 ==> one_ply_choice(
            board@,
            WHITE,
            old(white_engine)@.heuristics,
        ) == (match r.0 {
            Some(m) => Some(m@),
            None => None,
        }),
        extends(final(white_engine).clock_readings(), old(white_engine).clock_readings()),
        random_first ==> final(white_engine).clock_readings() == old(white_engine).clock_readings(),
        random_first && legal_of(board@, WHITE).len() > 0 ==> 0 <= r.1@ < legal_of(board@, WHITE).len() && (
        r.0 matches Some(m) && m@ == legal_of(board@, WHITE)[r.1@]),
        !random_first && in_time(final(white_engine).clock_readings()) ==> r.0 == engine_choice(
            old(white_engine)@,
            board@,
        ),
{
    reveal(legal_of);
    reveal(one_ply_choice);
    if random_first {
        let mut scratch = *board;
        let moves = generate_moves(&mut scratch, WHITE);
        if moves.len() > 0 {
            let k = random_index(rng, moves.len());
            assert(views(moves@)[k as int] == moves@[k as int]@);
            (Some(moves[k]), Ghost(k as int))
        } else {
            (None, Ghost(0))
        }
    } else {
        let ghost r0 = white_engine.clock_readings();
        let m = white_engine.get_best_move(*board);
        proof {
            lemma_over_limit_prefix(r0, white_engine.clock_readings());
        }
        (m, Ghost(0))
    }
}

/// Black's move: the engine's choice; `None` exactly when black has no
/// legal move.
fn black_choice(board: &Chessboard, black_engine: &mut Engine) -> (r: Option<Move>)
    requires
        engine_ok(old(black_engine)@),
        old(black_engine)@.color == BLACK,
        board@.en_passant <= 8,
    ensures
        final(black_engine)@ == old(black_engine)@,
        r is None <==> legal_of(board@, BLACK).len() == 0,
        r matches Some(m) ==> legal_of(board@, BLACK).contains(m@),
        old(black_engine)@.depth == 1 ==> one_ply_choice(board@, BLACK, old(black_engine)@.heuristics) == (
        match r {
            Some(m) => Some(m@),
            None => None,
        }),
        extends(final(black_engine).clock_readings(), old(black_engine).clock_readings()),
        in_time(final(black_engine).clock_readings()) ==> r == engine_choice(old(black_engine)@, board@),
{
    reveal(legal_of);
    reveal(one_ply_choice);
    let ghost r0 = black_engine.clock_readings();
    let m = black_engine.get_best_move(*board);
    proof {
        lemma_over_limit_prefix(r0, black_engine.clock_readings());
    }
    m
}

/// One move of each side: white's engine (or, with `random_first`, a random
/// legal move) moves, then black's engine. `Some(BlackWin)` when white has
/// no legal move, `Some(WhiteWin)` when black has none after white's move,
/// `None` when both moved. The plies of the game so far grow by the moves
/// played.
#[verifier::rlimit(100)]
fn play_round(
    board: &mut Chessboard,
    white_engine: &mut Engine,
    black_engine: &mut Engine,
    random_first: bool,
    rng: &mut StdRng,
    Ghost(start): Ghost<BoardView>,
    Ghost(plies): Ghost<Seq<(u16, MoveType)>>,
) -> (r: (Option<GameOutcome>, Ghost<Seq<(u16, MoveType)>>, Ghost<int>))
    requires
        engine_ok(old(white_engine)@),
        engine_ok(old(black_engine)@),
        old(white_engine)@.color == WHITE,
        old(black_engine)@.color == BLACK,
        old(board)@.en_passant <= 8,
        old(board)@ == after_plies(start, plies),
        legal_plies(start, plies),
        plies.len() % 2 == 0,
        plies.len() < ply_limit(),
    ensures
        final(white_engine)@ == old(white_engine)@,
        final(black_engine)@ == old(black_engine)@,
        final(board)@.en_passant <= 8,
        final(board)@ == after_plies(start, r.1@),
        legal_plies(start, r.1@),
        r.0 != Some(GameOutcome::Draw),
        r.0 is None ==> r.1@.len() == plies.len() + 2,
        r.0 matches Some(o) ==> ends_in(start, r.1@, o),
        !random_first && old(white_engine)@.depth == 1 && old(black_engine)@.depth == 1 ==> (
            r.0,
            final(board)@,
        ) == one_ply_round(old(board)@, old(white_engine)@.heuristics, old(black_engine)@.heuristics),
        extends(final(white_engine).clock_readings(), old(white_engine).clock_readings()),
        extends(final(black_engine).clock_readings(), old(black_engine).clock_readings()),
        !random_first && in_time(final(white_engine).clock_readings()) && in_time(
            final(black_engine).clock_readings(),
        ) ==> (r.0, final(board)@) == engine_round(old(board)@, old(white_engine)@, old(black_engine)@),
        random_first && in_time(final(black_engine).clock_readings()) ==> (r.0, final(board)@) == opening_round(
            old(board)@,
            r.2@,
            old(black_engine)@,
        ),
        random_first && legal_of(old(board)@, WHITE).len() > 0 ==> 0 <= r.2@ < legal_of(
            old(board)@,
            WHITE,
        ).len(),
{
    proof {
        reveal(legal_of);
    }
    let ghost b0 = board@;
    let (white_move, k) = white_choice(board, white_engine, random_first, rng);
    match white_move {
        None => {
            proof {
                lemma_ends_in(start, plies, GameOutcome::BlackWin);
            }
            (Some(GameOutcome::BlackWin), Ghost(plies), k)
        },
        Some(wm) => {
            proof {
                assert(ply_color(plies.len() as int) == WHITE);
                lemma_push_ply(start, plies, wm@);
            }
            play(board, &wm, Ghost(WHITE));
            let ghost p1 = plies.push(wm@);
            match black_choice(board, black_engine) {
                None => {
                    proof {
                        lemma_ends_in(start, p1, GameOutcome::WhiteWin);
                    }
                    (Some(GameOutcome::WhiteWin), Ghost(p1), k)
                },
                Some(bm) => {
                    proof {
                        assert(ply_color(p1.len() as int) == BLACK);
                        lemma_push_ply(start, p1, bm@);
                    }
                    play(board, &bm, Ghost(BLACK));
                    (None, Ghost(p1.push(bm@)), k)
                },
            }
        },
    }
}

/// A game between two weight sets from the starting position, both engines
/// searching `search_depth` plies with `memory_per_engine` of table. White
/// moves first; with `random_first_move` white's first move is a random legal
/// move. The side that has no legal move when it is to move loses; after a
/// hundred moves each the game is drawn. The ids are reported as given when
/// `white_is_first`, swapped otherwise.
pub fn play_game(
    white_id: u32,
    white_params: &HeuristicParams,
    black_id: u32,
    black_params: &HeuristicParams,
    white_is_first: bool,
    random_first_move: bool,
    search_depth: u32,
    memory_per_engine: usize,
    rng: &mut StdRng,
) -> (r: GameResult)
    requires
        search_depth >= 1,
        params_bounded(core_params(*white_params)),
        params_bounded(core_params(*black_params)),
        memory_per_engine * 1024 * 1024 <= usize::MAX,
    ensures
        r.white_id == (if white_is_first {
            white_id
        } else {
            black_id
        }),
        r.black_id == (if white_is_first {
            black_id
        } else {
            white_id
        }),
        exists|plies: Seq<(u16, MoveType)>| ends_in(starting_view(), plies, r.outcome),
        search_depth == 1 && !random_first_move ==> r.outcome == one_ply_game(
            starting_view(),
            core_params(*white_params),
            core_params(*black_params),
            100,
        ),
        random_first_move && legal_of(starting_view(), WHITE).len() > 0 ==> 0 <= r.opening_index()
            < legal_of(starting_view(), WHITE).len(),
        in_time(r.white_clock_readings()) && in_time(r.black_clock_readings()) ==> r.outcome == tuning_game(
            random_first_move,
            starting_view(),
            tuning_engine(search_depth, WHITE, *white_params, memory_per_engine),
            tuning_engine(search_depth, BLACK, *black_params, memory_per_engine),
            r.opening_index(),
        ),
{
    let mut board = Chessboard::new();
    let mut white_engine = Engine::new(search_depth, WHITE, white_params.into_core(), memory_per_engine);
    let mut black_engine = Engine::new(search_depth, BLACK, black_params.into_core(), memory_per_engine);
    let ghost start = starting_view();
    let ghost mut plies: Seq<(u16, MoveType)> = Seq::empty();
    proof {
        lemma_no_plies(start);
    }
    let mut outcome = GameOutcome::Draw;
    let mut finished = false;
    let mut move_count: u32 = 0;
    let ghost we = tuning_engine(search_depth, WHITE, *white_params, memory_per_engine);
    let ghost be = tuning_engine(search_depth, BLACK, *black_params, memory_per_engine);
    let ghost mut opening: int = 0;
    while move_count < 100 && !finished
        invariant
            move_count <= 100,
            white_engine@ == we,
            black_engine@ == be,
            move_count == 0 ==> board@ == start,
            random_first_move && move_count > 0 && legal_of(start, WHITE).len() > 0 ==> 0 <= opening
                < legal_of(start, WHITE).len(),
            move_count == 0 ==> !finished,
            in_time(white_engine.clock_readings()) && in_time(black_engine.clock_readings()) && move_count > 0
                ==> if finished {
                outcome == tuning_game(random_first_move, start, we, be, opening)
            } else {
                engine_game(board@, we, be, (100 - move_count) as nat) == tuning_game(
                    random_first_move,
                    start,
                    we,
                    be,
                    opening,
                )
            },
            engine_ok(white_engine@),
            engine_ok(black_engine@),
            white_engine@.color == WHITE,
            black_engine@.color == BLACK,
            board@ == after_plies(start, plies),
            board@.en_passant <= 8,
            legal_plies(start, plies),
            !finished ==> plies.len() == 2 * move_count && outcome == GameOutcome::Draw,
            finished ==> ends_in(start, plies, outcome),
            white_engine@.depth == search_depth,
            black_engine@.depth == search_depth,
            white_engine@.heuristics == core_params(*white_params),
            black_engine@.heuristics == core_params(*black_params),
            search_depth == 1 && !random_first_move ==> if finished {
                outcome == one_ply_game(start, core_params(*white_params), core_params(*black_params), 100)
            } else {
                one_ply_game(
                    board@,
                    core_params(*white_params),
                    core_params(*black_params),
                    (100 - move_count) as nat,
                ) == one_ply_game(start, core_params(*white_params), core_params(*black_params), 100)
            },
        decreases 100 - move_count,
    {
        let ghost board_before = board@;
        let ghost wr0 = white_engine.clock_readings();
        let ghost br0 = black_engine.clock_readings();
        let (round, Ghost(next), Ghost(drawn)) = play_round(
            &mut board,
            &mut white_engine,
            &mut black_engine,
            move_count == 0 && random_first_move,
            rng,
            Ghost(start),
            Ghost(plies),
        );
        proof {
            plies = next;
            lemma_over_limit_prefix(wr0, white_engine.clock_readings());
            lemma_over_limit_prefix(br0, black_engine.clock_readings());
            if move_count == 0 {
                assert(board_before == start);
                if random_first_move {
                    opening = drawn;
                }
            }
        }
        match round {
            Some(o) => {
                outcome = o;
                finished = true;
            },
            None => {},
        }
        move_count = move_count + 1;
    }
    proof {
        if !finished {
            lemma_ends_in(start, plies, outcome);
        }
    }
    let white_reported = if white_is_first {
        white_id
    } else {
        black_id
    };
    let black_reported = if white_is_first {
        black_id
    } else {
        white_id
    };
    GameResult {
        white_id: white_reported,
        black_id: black_reported,
        outcome,
        white_readings: Ghost(white_engine.clock_readings()),
        black_readings: Ghost(black_engine.clock_readings()),
        opening: Ghost(opening),
    }
}

} // verus!
