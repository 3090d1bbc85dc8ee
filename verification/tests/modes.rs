use tetrino::game::GameState;
use tetrino::modes::{blitz, custom, sprint40l, versus};

#[test]
fn sprint_ends_at_forty_lines() {
    let mut g = GameState::new();
    g.total_lines = 39;
    assert!(!sprint40l::check_game_over(&g));
    g.total_lines = 40;
    assert!(sprint40l::check_game_over(&g));
    g.total_lines = 41;
    assert!(sprint40l::check_game_over(&g));
}

#[test]
fn sprint_time_format() {
    assert_eq!(sprint40l::primary_stat(0), "00:00.000");
    assert_eq!(sprint40l::primary_stat(83_456), "01:23.456");
    assert_eq!(sprint40l::primary_stat(600_005), "10:00.005");
    assert_eq!(sprint40l::primary_stat(6_000_050), "100:00.050");
}

#[test]
fn blitz_lasts_two_minutes() {
    assert!(!blitz::check_game_over(119_999));
    assert!(blitz::check_game_over(120_000));
}

#[test]
fn score_modes_show_score() {
    let mut g = GameState::new();
    g.score = 123_450;
    assert_eq!(versus::primary_stat(&g), "123450");
    assert_eq!(custom::primary_stat(&g), "123450");
    assert_eq!(blitz::primary_stat(&g), "123450");
    assert!(!versus::check_game_over(&g));
    assert!(!custom::check_game_over(&g));
}
