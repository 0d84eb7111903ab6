use dino_game::github_gate::{extract_login, parse_star_status, CommandOutput, SupportMode};

#[test]
fn extracts_login_from_gh_auth_status_output() {
    let sample = "github.com\n  ✓ Logged in to github.com account HaD0Yun (keyring)\n";
    assert_eq!(extract_login(sample).as_deref(), Some("HaD0Yun"));
}

#[test]
fn parses_starred_status_code() {
    let sample = "HTTP/2.0 204 No Content\nDate: today\n";
    assert_eq!(parse_star_status(sample), Some(204));
}

#[test]
fn parses_not_starred_status_code() {
    let sample = "HTTP/2.0 404 Not Found\nDate: today\n";
    assert_eq!(parse_star_status(sample), Some(404));
}

#[test]
fn login_absent_gives_none() {
    assert_eq!(extract_login(""), None);
    assert_eq!(extract_login("github.com\n  not logged in\n"), None);
    assert_eq!(extract_login("account    \n"), None);
}

#[test]
fn login_comes_from_first_line_that_names_one() {
    let sample = "header\r\naccount first\r\naccount second\n";
    assert_eq!(extract_login(sample).as_deref(), Some("first"));
    let sample = "account \nx account\tno\ny account  later more";
    assert_eq!(extract_login(sample).as_deref(), Some("later"));
}

#[test]
fn status_skips_lines_without_a_code() {
    let sample = "HTTP/1.1\nHTTP/1.1 abc\nHTTP/1.1 70000 Big\nHTTP/1.1 404\n";
    assert_eq!(parse_star_status(sample), Some(404));
    assert_eq!(parse_star_status("Date: today\n  HTTP/2 204\n"), None);
    assert_eq!(parse_star_status("HTTP/2 +204 No Content"), Some(204));
    assert_eq!(parse_star_status(""), None);
}

#[test]
fn penalty_mode_only_when_not_starred() {
    let starred = SupportMode::Starred { login: "a".to_owned() };
    let not_starred = SupportMode::NotStarred { login: "a".to_owned() };
    let unavailable = SupportMode::Unavailable { message: "m".to_owned() };
    assert!(!starred.is_penalty_mode());
    assert!(not_starred.is_penalty_mode());
    assert!(!unavailable.is_penalty_mode());
    assert_eq!(starred.scene_tint(), None);
    assert_eq!(not_starred.repo_url(), "github.com/Yeachan-Heo/oh-my-codex");
}

#[test]
fn status_lines_name_the_login() {
    let starred = SupportMode::Starred { login: "bob".to_owned() };
    let not_starred = SupportMode::NotStarred { login: "eve".to_owned() };
    let unavailable = SupportMode::Unavailable { message: "gh CLI not found".to_owned() };
    assert_eq!(starred.status_heading(), "bob: repository star detected");
    assert_eq!(not_starred.status_heading(), "eve: repository star not detected");
    assert_eq!(unavailable.status_heading(), "GitHub star status unavailable");
    assert_eq!(
        starred.status_detail(),
        "Supporter mode: normal obstacle pacing unlocked"
    );
    assert_eq!(
        not_starred.status_detail(),
        "You have not starred this repository, so this feature is unavailable until you star it."
    );
    assert_eq!(
        unavailable.status_detail(),
        "Verification unavailable: gh CLI not found"
    );
}

#[test]
fn override_setting_forces_the_mode() {
    assert_eq!(
        SupportMode::from_override("starred"),
        SupportMode::Starred { login: "override".to_owned() }
    );
    assert_eq!(
        SupportMode::from_override("unstarred"),
        SupportMode::NotStarred { login: "override".to_owned() }
    );
    assert_eq!(
        SupportMode::from_override("Starred"),
        SupportMode::Unavailable { message: "support override active".to_owned() }
    );
}

#[test]
fn auth_status_decides_whether_to_query() {
    assert_eq!(
        SupportMode::after_auth_status(None),
        Err(SupportMode::Unavailable { message: "gh CLI not found".to_owned() })
    );
    let failed = CommandOutput { success: false, text: "account x".to_owned() };
    assert_eq!(
        SupportMode::after_auth_status(Some(&failed)),
        Err(SupportMode::Unavailable {
            message: "gh login required to verify GitHub star".to_owned()
        })
    );
    let ok = CommandOutput { success: true, text: "Logged in to github.com account neo (keyring)".to_owned() };
    assert_eq!(SupportMode::after_auth_status(Some(&ok)), Ok("neo".to_owned()));
    let anonymous = CommandOutput { success: true, text: "Logged in".to_owned() };
    assert_eq!(SupportMode::after_auth_status(Some(&anonymous)), Ok("gh-user".to_owned()));
}

#[test]
fn star_response_decides_the_mode() {
    assert_eq!(
        SupportMode::from_star_response("neo".to_owned(), Some("HTTP/2.0 204 No Content\n")),
        SupportMode::Starred { login: "neo".to_owned() }
    );
    assert_eq!(
        SupportMode::from_star_response("neo".to_owned(), Some("HTTP/2.0 404 Not Found\n")),
        SupportMode::NotStarred { login: "neo".to_owned() }
    );
    assert_eq!(
        SupportMode::from_star_response("neo".to_owned(), Some("HTTP/2.0 500 Oops\n")),
        SupportMode::Unavailable { message: "unable to verify repo star status".to_owned() }
    );
    assert_eq!(
        SupportMode::from_star_response("neo".to_owned(), Some("garbage")),
        SupportMode::Unavailable { message: "unable to verify repo star status".to_owned() }
    );
    assert_eq!(
        SupportMode::from_star_response("neo".to_owned(), None),
        SupportMode::Unavailable { message: "failed to run gh api".to_owned() }
    );
}
