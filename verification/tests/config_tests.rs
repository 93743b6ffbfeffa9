use chessnetwork::config_loader::{
    available_memory_from_setting, heuristics_or_default, load_available_memory_from_config,
};
use chessnetwork::heuristics::HeuristicParams;

#[test]
fn memory_without_a_file() {
    assert_eq!(load_available_memory_from_config(None), Some(20480));
}

#[test]
fn small_settings_are_gigabytes() {
    assert_eq!(load_available_memory_from_config(Some("available_memory: 4\n")), Some(4096));
    assert_eq!(load_available_memory_from_config(Some("available_memory: 127")), Some(127 * 1024));
}

#[test]
fn large_settings_are_megabytes() {
    assert_eq!(load_available_memory_from_config(Some("available_memory: 128")), Some(128));
    assert_eq!(load_available_memory_from_config(Some("other: 1\navailable_memory: 6000\n")), Some(6000));
}

#[test]
fn missing_or_unusable_settings_fall_back() {
    assert_eq!(load_available_memory_from_config(Some("other: 5\n")), Some(2048));
    assert_eq!(load_available_memory_from_config(Some("available_memory: lots\n")), Some(2048));
    assert_eq!(load_available_memory_from_config(Some("available_memory: [1, 2\n")), Some(2048));
}

#[test]
fn hugely_negative_settings_overflow() {
    assert_eq!(load_available_memory_from_config(Some("available_memory: -9223372036854775807")), None);
    assert_eq!(available_memory_from_setting(Some(Some(-1))), (-1024i64) as usize);
}

#[test]
fn setting_conversion() {
    assert_eq!(available_memory_from_setting(None), 2048);
    assert_eq!(available_memory_from_setting(Some(None)), 2048);
    assert_eq!(available_memory_from_setting(Some(Some(2))), 2048);
    assert_eq!(available_memory_from_setting(Some(Some(4000))), 4000);
}

#[test]
fn heuristics_fall_back_to_defaults() {
    let d = heuristics_or_default(None);
    assert_eq!(d.castling_weight, 10);
    let given = HeuristicParams {
        two_middle_pawns_weight: 1,
        castling_weight: 2,
        development_weight: 3,
        mobility_weight: 4,
        knight_outpost_weight: 5,
    };
    let r = heuristics_or_default(Some(given));
    assert_eq!(r.development_weight, 3);
    assert_eq!(r.knight_outpost_weight, 5);
}
