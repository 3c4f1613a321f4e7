use std::collections::BTreeSet;

use cc_switch_tui::json::{
    common_json_preview_highlight_lines, common_json_preview_value, lines_of,
    mark_common_json_lines, redact_sensitive_json, redact_value_payload, sorted_json_object_keys,
    JsonValue,
};
use cc_switch_tui::theme::AppType;

fn s(text: &str) -> JsonValue {
    JsonValue::String(text.to_string())
}

fn obj(entries: Vec<(&str, JsonValue)>) -> JsonValue {
    JsonValue::Object(entries.into_iter().map(|(k, v)| (k.to_string(), v)).collect())
}

fn config() -> (JsonValue, &'static str) {
    let full = obj(vec![
        ("env", obj(vec![("A", s("1")), ("B", s("2"))])),
        ("model", s("x")),
    ]);
    let text = "{\n  \"env\": {\n    \"A\": \"1\",\n    \"B\": \"2\"\n  },\n  \"model\": \"x\"\n}";
    (full, text)
}

#[test]
fn redact_sensitive_json_hides_only_secret_values() {
    let value = obj(vec![
        ("env", obj(vec![("API_KEY", s("k")), ("MODEL", s("m"))])),
        (
            "token",
            obj(vec![
                ("a", JsonValue::Number("1".to_string())),
                ("b", JsonValue::Null),
                ("c", JsonValue::Array(vec![JsonValue::Bool(true)])),
            ]),
        ),
        ("count", JsonValue::Number("3".to_string())),
    ]);
    let redacted = redact_sensitive_json(&value);
    let expected = obj(vec![
        ("env", obj(vec![("API_KEY", s("[redacted]")), ("MODEL", s("m"))])),
        (
            "token",
            obj(vec![
                ("a", s("[redacted]")),
                ("b", JsonValue::Null),
                ("c", JsonValue::Array(vec![s("[redacted]")])),
            ]),
        ),
        ("count", JsonValue::Number("3".to_string())),
    ]);
    assert_eq!(redacted, expected);
}

#[test]
fn redact_value_payload_keeps_shape_and_nulls() {
    assert_eq!(redact_value_payload(&JsonValue::Null), JsonValue::Null);
    assert_eq!(redact_value_payload(&JsonValue::Bool(false)), s("[redacted]"));
    assert_eq!(
        redact_value_payload(&JsonValue::Array(vec![JsonValue::Null, s("x")])),
        JsonValue::Array(vec![JsonValue::Null, s("[redacted]")])
    );
}

#[test]
fn sorted_json_object_keys_lists_object_keys() {
    let (full, _) = config();
    assert_eq!(sorted_json_object_keys(&full), vec!["env".to_string(), "model".to_string()]);
    assert!(sorted_json_object_keys(&s("x")).is_empty());
}

#[test]
fn lines_of_matches_str_lines() {
    assert_eq!(lines_of("a\r\nb\n\nc\r"), vec!["a", "b", "", "c\r"]);
    assert!(lines_of("").is_empty());
    assert_eq!(lines_of("x\n"), vec!["x"]);
    assert_eq!(lines_of("\n"), vec![""]);
}

#[test]
fn mark_common_json_lines_finds_nested_keys() {
    let (full, text) = config();
    let lines: Vec<&str> = text.lines().collect();
    let common = obj(vec![("env", obj(vec![("A", s("1"))]))]);
    let mut path = Vec::new();
    let mut highlighted = BTreeSet::new();
    mark_common_json_lines(&full, &common, &mut path, &lines, &mut highlighted);
    assert!(path.is_empty());
    assert_eq!(highlighted.into_iter().collect::<Vec<_>>(), vec![2]);

    let empty_env = obj(vec![("env", obj(vec![])), ("missing", s("z"))]);
    let mut highlighted = BTreeSet::new();
    mark_common_json_lines(&full, &empty_env, &mut path, &lines, &mut highlighted);
    assert_eq!(highlighted.into_iter().collect::<Vec<_>>(), vec![1]);
}

#[test]
fn common_preview_highlights_per_app() {
    let (full, text) = config();
    let gemini = common_json_preview_highlight_lines(
        &AppType::Gemini,
        &full,
        text,
        "{\"A\": \"1\"}",
        true,
        Some(obj(vec![("A", s("1"))])),
    );
    assert_eq!(gemini.into_iter().collect::<Vec<_>>(), vec![2]);

    let claude = common_json_preview_highlight_lines(
        &AppType::Claude,
        &full,
        text,
        "{\"model\": \"y\"}",
        true,
        Some(obj(vec![("model", s("y"))])),
    );
    assert_eq!(claude.into_iter().collect::<Vec<_>>(), vec![5]);

    let off = common_json_preview_highlight_lines(
        &AppType::Claude,
        &full,
        text,
        "{\"model\": \"y\"}",
        false,
        Some(obj(vec![("model", s("y"))])),
    );
    assert!(off.is_empty());
}

#[test]
fn common_preview_value_rules() {
    assert_eq!(common_json_preview_value(&AppType::Claude, "  ", Some(obj(vec![]))), None);
    assert_eq!(common_json_preview_value(&AppType::Codex, "{}", Some(obj(vec![]))), None);
    assert_eq!(
        common_json_preview_value(&AppType::Claude, "3", Some(JsonValue::Number("3".to_string()))),
        None
    );
    assert_eq!(common_json_preview_value(&AppType::Claude, "nope", None), None);
    assert_eq!(
        common_json_preview_value(&AppType::Gemini, "{\"K\": 1}", Some(obj(vec![("K", s("v"))]))),
        Some(obj(vec![("env", obj(vec![("K", s("v"))]))]))
    );
}

#[test]
fn redacting_twice_changes_nothing_more() {
    let value = obj(vec![
        ("auth", obj(vec![("apiKey", s("k")), ("user", s("me"))])),
        ("password", JsonValue::Array(vec![s("p"), JsonValue::Null])),
        ("list", JsonValue::Array(vec![obj(vec![("token", JsonValue::Bool(false))])])),
    ]);
    let once = redact_sensitive_json(&value);
    assert_eq!(redact_sensitive_json(&once), once);
}
