use dino_game::github_gate::SupportMode;
use dino_game::hud::{game_over_text, score_text};

#[test]
fn score_line_pads_to_five_digits() {
    assert_eq!(score_text(12, 7), "HI 00012  SCORE 00007");
    assert_eq!(score_text(0, 0), "HI 00000  SCORE 00000");
    assert_eq!(score_text(123456, 99999), "HI 123456  SCORE 99999");
}

#[test]
fn score_line_shows_current_when_it_beats_best() {
    assert_eq!(score_text(3, 50), "HI 00050  SCORE 00050");
}

#[test]
fn game_over_panel_depends_on_penalty_mode() {
    let penalty = SupportMode::NotStarred { login: "x".to_owned() };
    assert_eq!(
        game_over_text(&penalty),
        (
            "YOU DID NOT STAR THE REPOSITORY",
            "You cannot keep this mode fair until you star the repo."
        )
    );
    let normal = SupportMode::Starred { login: "x".to_owned() };
    assert_eq!(
        game_over_text(&normal),
        ("GAME OVER", "Press SPACE or ENTER to restart")
    );
}
