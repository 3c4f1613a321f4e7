use cc_switch_tui::json_lines::{find_json_path_line, json_line_key, json_line_opens_container};

#[test]
fn json_line_key_reads_keys_with_inline_values() {
    assert_eq!(json_line_key("\"model\": \"x\","), Some("model".to_string()));
    assert_eq!(json_line_key("\"env\": {"), Some("env".to_string()));
    assert_eq!(json_line_key("\"env\":"), None);
    assert_eq!(json_line_key("\"env\":   "), None);
    assert_eq!(json_line_key("model: 1"), None);
    assert_eq!(json_line_key("}"), None);
}

#[test]
fn json_line_opens_container_looks_at_value() {
    assert!(json_line_opens_container("\"env\": {"));
    assert!(json_line_opens_container("\"list\":[1,"));
    assert!(!json_line_opens_container("\"model\": \"x\""));
    assert!(!json_line_opens_container("{"));
}

#[test]
fn find_json_path_line_tracks_nesting() {
    let text = "{\n  \"env\": {\n    \"API_KEY\": \"k\",\n    \"MODEL\": \"m\"\n  },\n  \"MODEL\": \"top\"\n}";
    let lines: Vec<&str> = text.lines().collect();
    let path = |p: &[&str]| p.iter().map(|s| s.to_string()).collect::<Vec<String>>();
    assert_eq!(find_json_path_line(&lines, &path(&["env"])), Some(1));
    assert_eq!(find_json_path_line(&lines, &path(&["env", "MODEL"])), Some(3));
    assert_eq!(find_json_path_line(&lines, &path(&["MODEL"])), Some(5));
    assert_eq!(find_json_path_line(&lines, &path(&["API_KEY"])), None);
    assert_eq!(find_json_path_line(&lines, &path(&["missing"])), None);
}
