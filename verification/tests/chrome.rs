use cc_switch_tui::chrome::split_nav_label;

#[test]
fn split_nav_label_separates_icon_from_text() {
    assert_eq!(
        split_nav_label("🏠 Home"),
        ("🏠".to_string(), "Home".to_string())
    );
    assert_eq!(split_nav_label("Plain"), (String::new(), "Plain".to_string()));
    assert_eq!(split_nav_label("a b c"), ("a".to_string(), "b c".to_string()));
    assert_eq!(split_nav_label(" x"), (String::new(), "x".to_string()));
}
