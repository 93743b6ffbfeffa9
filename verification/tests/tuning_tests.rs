use chessnetwork::chessboard::Chessboard;
use chessnetwork::constants::{BLACK, WHITE};
use chessnetwork::engine::Engine;
use chessnetwork::tuning::{
    clamp, matchups, memory_per_engine, mutant_parents, pairs_per_matchup, play_game,
    population_size_ok, search_depth_ok, GameOutcome, GameResult, GameTally, HeuristicParams,
    Verdict,
};
use rand::rngs::StdRng;
use rand::SeedableRng;

#[test]
fn clamp_keeps_values_in_range() {
    assert_eq!(clamp(-5, 1, 100), 1);
    assert_eq!(clamp(0, 1, 100), 1);
    assert_eq!(clamp(1, 1, 100), 1);
    assert_eq!(clamp(57, 1, 100), 57);
    assert_eq!(clamp(100, 1, 100), 100);
    assert_eq!(clamp(250, 1, 100), 100);
}

#[test]
fn default_tuning_weights() {
    let p = HeuristicParams::default();
    assert_eq!(
        (p.two_middle_pawns_weight, p.castling_weight, p.knight_outpost_weight, p.development_weight, p.mobility_weight),
        (10, 10, 10, 10, 10)
    );
}

#[test]
fn random_weights_stay_in_their_range() {
    let mut rng = StdRng::seed_from_u64(7);
    for _ in 0..50 {
        let p = HeuristicParams::random(&mut rng);
        for w in [p.two_middle_pawns_weight, p.castling_weight, p.knight_outpost_weight, p.development_weight, p.mobility_weight] {
            assert!((1..50).contains(&w));
        }
    }
}

#[test]
fn mutation_results_are_clamped() {
    let p = HeuristicParams::from_perturbed(-3, 0, 12, 101, 100);
    assert_eq!(p.two_middle_pawns_weight, 1);
    assert_eq!(p.castling_weight, 1);
    assert_eq!(p.knight_outpost_weight, 12);
    assert_eq!(p.development_weight, 100);
    assert_eq!(p.mobility_weight, 100);
}

#[test]
fn tuned_weights_convert_field_by_field() {
    let p = HeuristicParams {
        two_middle_pawns_weight: 1,
        castling_weight: 2,
        knight_outpost_weight: 3,
        development_weight: 4,
        mobility_weight: 5,
    };
    let c = p.into_core();
    assert_eq!(c.two_middle_pawns_weight, 1);
    assert_eq!(c.castling_weight, 2);
    assert_eq!(c.knight_outpost_weight, 3);
    assert_eq!(c.development_weight, 4);
    assert_eq!(c.mobility_weight, 5);
}

#[test]
fn round_robin_pairs_everyone_once() {
    assert_eq!(matchups(4), vec![(0, 1), (0, 2), (0, 3), (1, 2), (1, 3), (2, 3)]);
    assert!(matchups(1).is_empty());
    assert!(matchups(0).is_empty());
    assert_eq!(matchups(10).len(), 45);
}

#[test]
fn pairs_of_games_per_matchup() {
    assert_eq!(pairs_per_matchup(0), 1);
    assert_eq!(pairs_per_matchup(1), 1);
    assert_eq!(pairs_per_matchup(2), 1);
    assert_eq!(pairs_per_matchup(3), 2);
    assert_eq!(pairs_per_matchup(4), 2);
    assert_eq!(pairs_per_matchup(7), 4);
}

#[test]
fn memory_is_shared_between_engines() {
    assert_eq!(memory_per_engine(20480, 12), 853);
    assert_eq!(memory_per_engine(20480, 0), 10240);
    assert_eq!(memory_per_engine(20480, 1), 10240);
    assert_eq!(memory_per_engine(3, 4), 1);
    assert_eq!(memory_per_engine(0, 1), 1);
}

#[test]
fn verdicts_and_tallies() {
    let r = GameResult::new(3, 5, GameOutcome::WhiteWin);
    assert_eq!(r.verdict_for_white(), Verdict::Win);
    assert_eq!(r.verdict_for_black(), Verdict::Loss);
    let d = GameResult::new(3, 5, GameOutcome::Draw);
    assert_eq!(d.verdict_for_black(), Verdict::Draw);
    let mut t = GameTally::new();
    t.record(Verdict::Win);
    t.record(Verdict::Draw);
    t.record(Verdict::Loss);
    t.record(Verdict::Loss);
    assert_eq!((t.games_played, t.draw_count, t.loss_count), (4, 1, 2));
}

#[test]
fn a_game_reports_ids_and_an_outcome() {
    let mut rng = StdRng::seed_from_u64(1);
    let a = HeuristicParams::default();
    let b = HeuristicParams::from_perturbed(20, 5, 30, 2, 1);
    let first = play_game(1, &a, 2, &b, true, false, 1, 1, &mut rng);
    assert_eq!((first.white_id, first.black_id), (1, 2));
    let second = play_game(2, &b, 1, &a, false, true, 1, 1, &mut rng);
    assert_eq!((second.white_id, second.black_id), (1, 2));
}

#[test]
fn one_ply_games_are_the_engines_choices() {
    let mut rng = StdRng::seed_from_u64(3);
    let a = HeuristicParams::default();
    let b = HeuristicParams::from_perturbed(20, 5, 30, 2, 1);
    let played = play_game(1, &a, 2, &b, true, false, 1, 1, &mut rng);
    // Replay the game with one-ply engines.
    let mut board = Chessboard::new();
    let mut white = Engine::new(1, WHITE, a.into_core(), 1);
    let mut black = Engine::new(1, BLACK, b.into_core(), 1);
    let mut outcome = GameOutcome::Draw;
    for _ in 0..100 {
        match white.get_best_move(board) {
            None => {
                outcome = GameOutcome::BlackWin;
                break;
            }
            Some(m) => board.move_piece(m.get_piece_type(), m.get_color(), &m),
        }
        match black.get_best_move(board) {
            None => {
                outcome = GameOutcome::WhiteWin;
                break;
            }
            Some(m) => board.move_piece(m.get_piece_type(), m.get_color(), &m),
        }
    }
    assert_eq!(played.outcome, outcome);
}

#[test]
fn mutants_fill_the_population() {
    let mut rng = StdRng::seed_from_u64(9);
    let parents = mutant_parents(&mut rng, 3, 10);
    assert_eq!(parents.len(), 7);
    assert!(parents.iter().all(|&p| p < 3));
    assert!(mutant_parents(&mut rng, 12, 10).is_empty());
    assert!(population_size_ok(4) && !population_size_ok(3));
    assert!(search_depth_ok(2) && search_depth_ok(20) && !search_depth_ok(1) && !search_depth_ok(21));
}
