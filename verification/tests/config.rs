use dino_game::config::resolve_window_dimension;

#[test]
fn window_dimension_from_setting() {
    assert_eq!(resolve_window_dimension(Some("800"), 1280, 320), 800);
    assert_eq!(resolve_window_dimension(Some("+400"), 1280, 320), 400);
    assert_eq!(resolve_window_dimension(Some("320"), 1280, 320), 320);
}

#[test]
fn window_dimension_falls_back() {
    assert_eq!(resolve_window_dimension(None, 1280, 320), 1280);
    assert_eq!(resolve_window_dimension(Some("100"), 1280, 320), 1280);
    assert_eq!(resolve_window_dimension(Some("abc"), 360, 90), 360);
    assert_eq!(resolve_window_dimension(Some(" 800"), 1280, 320), 1280);
    assert_eq!(resolve_window_dimension(Some("99999999999"), 1280, 320), 1280);
}

#[test]
fn window_dimension_reads_signed_values() {
    assert_eq!(resolve_window_dimension(Some("-5"), 7, -10), -5);
    assert_eq!(resolve_window_dimension(Some("-2147483648"), 7, i32::MIN), i32::MIN);
    assert_eq!(resolve_window_dimension(Some("-"), 7, -10), 7);
}
