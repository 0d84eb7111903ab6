use dino_game::persistence::{HighScoreStore, StoreAction};
use std::path::PathBuf;

#[test]
fn load_defaults_to_zero_for_missing_file() {
    assert_eq!(HighScoreStore::score_from_contents(None), 0);
}

#[test]
fn save_and_load_round_trip() {
    let contents = HighScoreStore::contents_for_score(420);
    assert_eq!(HighScoreStore::score_from_contents(Some(&contents)), 420);
}

#[test]
fn invalid_file_contents_fall_back_to_zero() {
    assert_eq!(HighScoreStore::score_from_contents(Some("not-a-number")), 0);
}

#[test]
fn malformed_contents_read_as_zero() {
    assert_eq!(HighScoreStore::score_from_contents(Some("")), 0);
    assert_eq!(HighScoreStore::score_from_contents(Some("-1")), 0);
    assert_eq!(HighScoreStore::score_from_contents(Some("4294967296")), 0);
    assert_eq!(HighScoreStore::score_from_contents(Some("12 3")), 0);
}

#[test]
fn contents_are_trimmed_before_reading() {
    assert_eq!(HighScoreStore::score_from_contents(Some("  420\n")), 420);
    assert_eq!(HighScoreStore::score_from_contents(Some("+7")), 7);
    assert_eq!(HighScoreStore::score_from_contents(Some("\u{3000}0009\r\n")), 9);
    assert_eq!(HighScoreStore::score_from_contents(Some("4294967295")), u32::MAX);
}

#[test]
fn written_scores_read_back() {
    for score in [0u32, 7, 10, 420, 99999, u32::MAX] {
        let contents = HighScoreStore::contents_for_score(score);
        assert_eq!(contents, score.to_string());
        assert_eq!(HighScoreStore::score_from_contents(Some(&contents)), score);
    }
}

#[test]
fn store_if_higher_only_overwrites_on_improvement() {
    let store = HighScoreStore::new(PathBuf::from("scores.txt"));
    match store.store_if_higher(300, 250) {
        StoreAction::Keep { best } => assert_eq!(best, 300),
        StoreAction::Write { .. } => panic!("lower score must not be written"),
    }
    match store.store_if_higher(300, 300) {
        StoreAction::Keep { best } => assert_eq!(best, 300),
        StoreAction::Write { .. } => panic!("equal score must not be written"),
    }
    match store.store_if_higher(300, 450) {
        StoreAction::Write { best, contents } => {
            assert_eq!(best, 450);
            assert_eq!(contents, "450");
        }
        StoreAction::Keep { .. } => panic!("higher score must be written"),
    }
    assert_eq!(store.store_if_higher(450, 450).best(), 450);
}

#[test]
fn store_location_comes_from_setting_or_default() {
    let store = HighScoreStore::from_env_or_default(
        Some(PathBuf::from("/tmp/custom")),
        PathBuf::from("default"),
    );
    assert_eq!(store.path(), &PathBuf::from("/tmp/custom"));
    let store = HighScoreStore::from_env_or_default(None, PathBuf::from("default"));
    assert_eq!(store.path(), &PathBuf::from("default"));
    let store = HighScoreStore::new(PathBuf::from("a/b"));
    assert_eq!(store.path(), &PathBuf::from("a/b"));
}
