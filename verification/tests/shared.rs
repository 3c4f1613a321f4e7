use cc_switch_tui::shared::usage_value_summary_text;
use cc_switch_tui::shared::key_bar_chip_width;
use cc_switch_tui::shared::key_bar_fit_count;
use cc_switch_tui::shared::key_bar_items_for_width;
use cc_switch_tui::shared::truncated_value_cell;
use cc_switch_tui::shared::display_usage_plan_name;
use cc_switch_tui::shared::quota_relative_time_compact;
use cc_switch_tui::shared::relative_time_compact;
use cc_switch_tui::shared::{
    breadcrumb_title, cell_pad, field_label_column_width, format_sync_time_local_to_minute,
    format_uptime_compact, inset_horizontal, inset_left, inset_top, is_sensitive_display_key,
    pad_to_display_width, redacted_secret_placeholder, strip_trailing_colon,
    truncate_to_display_width, Rect,
};

#[test]
fn webdav_sync_time_formats_to_minute() {
    let formatted = format_sync_time_local_to_minute(1_735_689_600)
        .expect("timestamp should be formatable");
    assert_eq!(formatted.len(), 16);
    assert_eq!(&formatted[4..5], "/");
    assert_eq!(&formatted[7..8], "/");
    assert_eq!(&formatted[10..11], " ");
    assert_eq!(&formatted[13..14], ":");
}

#[test]
fn cell_pad_adds_one_leading_space() {
    assert_eq!(cell_pad("abc"), " abc");
    assert_eq!(cell_pad(""), " ");
}

#[test]
fn strip_trailing_colon_removes_ascii_and_fullwidth_colons() {
    assert_eq!(strip_trailing_colon("Name:"), "Name");
    assert_eq!(strip_trailing_colon("名称：:"), "名称");
    assert_eq!(strip_trailing_colon("a:b"), "a:b");
}

#[test]
fn pad_to_display_width_counts_wide_characters() {
    assert_eq!(pad_to_display_width("Key:", 6), "Key   ");
    assert_eq!(pad_to_display_width("名称", 6), "名称  ");
    assert_eq!(pad_to_display_width("Longer", 3), "Longer");
}

#[test]
fn truncate_to_display_width_adds_ellipsis() {
    assert_eq!(truncate_to_display_width("hello", 0), "");
    assert_eq!(truncate_to_display_width("hello", 5), "hello");
    assert_eq!(truncate_to_display_width("hello", 1), "…");
    assert_eq!(truncate_to_display_width("hello", 4), "hel…");
    assert_eq!(truncate_to_display_width("名称名称", 5), "名称…");
}

#[test]
fn breadcrumb_title_joins_segments() {
    assert_eq!(breadcrumb_title(&["Usage", "Details"]), " Usage › Details ");
    assert_eq!(breadcrumb_title(&["Home"]), " Home ");
}

#[test]
fn format_uptime_compact_skips_zero_parts() {
    assert_eq!(format_uptime_compact(0), "0s");
    assert_eq!(format_uptime_compact(59), "59s");
    assert_eq!(format_uptime_compact(60), "1m");
    assert_eq!(format_uptime_compact(3_661), "1h 1m 1s");
    assert_eq!(format_uptime_compact(90_000), "1d 1h");
}

#[test]
fn insets_shrink_or_keep_area() {
    let area = Rect {
        x: 2,
        y: 3,
        width: 10,
        height: 4,
    };
    assert_eq!(
        inset_left(area, 3),
        Rect {
            x: 5,
            y: 3,
            width: 7,
            height: 4
        }
    );
    assert_eq!(inset_left(area, 10), area);
    assert_eq!(
        inset_horizontal(area, 2),
        Rect {
            x: 4,
            y: 3,
            width: 6,
            height: 4
        }
    );
    assert_eq!(inset_horizontal(area, 5), area);
    assert_eq!(
        inset_top(area, 1),
        Rect {
            x: 2,
            y: 4,
            width: 10,
            height: 3
        }
    );
    assert_eq!(inset_top(area, 4), area);
}

#[test]
fn field_label_column_width_takes_widest_label() {
    assert_eq!(field_label_column_width(&["a", "abcd", "名称"], 2), 6);
    assert_eq!(field_label_column_width(&[], 3), 3);
}

#[test]
fn sensitive_keys_are_recognised() {
    assert!(is_sensitive_display_key("Authorization"));
    assert!(is_sensitive_display_key("OPENAI_API_KEY"));
    assert!(is_sensitive_display_key("x-auth-token"));
    assert!(is_sensitive_display_key("db_password"));
    assert!(is_sensitive_display_key("AWS_SECRET_ACCESS_KEY"));
    assert!(!is_sensitive_display_key("model"));
    assert!(!is_sensitive_display_key("base_url"));
    assert_eq!(redacted_secret_placeholder(), "[redacted]");
}

#[test]
fn key_bar_chips_fit_by_width() {
    assert_eq!(key_bar_chip_width("q", "quit"), 6);
    let items = [("q", "quit"), ("?", "help")];
    assert_eq!(key_bar_fit_count(&items, 16), 2);
    assert_eq!(key_bar_fit_count(&items, 15), 1);
    assert_eq!(key_bar_fit_count(&items, 8), 1);
    assert_eq!(key_bar_fit_count(&items, 7), 0);
    assert_eq!(key_bar_fit_count(&items, 0), 0);
    assert_eq!(key_bar_items_for_width(&items, 16, "more"), items.to_vec());
    assert_eq!(key_bar_items_for_width(&items, 15, "more"), vec![("?", "more")]);
    let three = [("q", "quit"), ("?", "help"), ("a", "add")];
    assert_eq!(
        key_bar_items_for_width(&three, 20, "more"),
        vec![("q", "quit"), ("?", "more")]
    );
}

#[test]
fn truncated_value_cell_leaves_room_for_label_and_marker() {
    assert_eq!(truncated_value_cell("hello world", 20, 10, ""), "hello wo…");
    assert_eq!(truncated_value_cell("hello world", 20, 10, "> "), "hello …");
    assert_eq!(truncated_value_cell("short", 20, 10, ""), "short");
    assert_eq!(truncated_value_cell("short", 5, 10, ""), "");
}

#[test]
fn display_usage_plan_name_hides_blank_and_default() {
    assert_eq!(display_usage_plan_name(Some("  Pro ")), Some("  Pro "));
    assert_eq!(display_usage_plan_name(Some("Default")), None);
    assert_eq!(display_usage_plan_name(Some(" DEFAULT ")), None);
    assert_eq!(display_usage_plan_name(Some("   ")), None);
    assert_eq!(display_usage_plan_name(None), None);
}

#[test]
fn relative_time_compact_uses_largest_unit() {
    assert_eq!(relative_time_compact(0, 30_000, false), "30s ago");
    assert_eq!(relative_time_compact(0, 500, false), "1s ago");
    assert_eq!(relative_time_compact(1_000, 0, false), "1s ago");
    assert_eq!(relative_time_compact(0, 5 * 60_000, false), "5m ago");
    assert_eq!(relative_time_compact(0, 3 * 3_600_000, true), "3h前");
    assert_eq!(relative_time_compact(0, 2 * 86_400_000, false), "2d ago");
    assert!(quota_relative_time_compact(0, false).ends_with("d ago"));
}

#[test]
fn sync_time_fields_stay_in_their_ranges() {
    let formatted = format_sync_time_local_to_minute(0).expect("epoch is in range");
    let chars: Vec<char> = formatted.chars().collect();
    let n = chars.len();
    let field = |i: usize| chars[i].to_digit(10).unwrap() * 10 + chars[i + 1].to_digit(10).unwrap();
    assert!(chars[..n - 12].iter().all(|c| c.is_ascii_digit()));
    assert!((1..=12).contains(&field(n - 11)));
    assert!((1..=31).contains(&field(n - 8)));
    assert!(field(n - 5) <= 23);
    assert!(field(n - 2) <= 59);
}

#[test]
fn sync_time_outside_chrono_dates_is_none() {
    assert_eq!(format_sync_time_local_to_minute(i64::MAX), None);
    assert_eq!(format_sync_time_local_to_minute(i64::MIN), None);
}

#[test]
fn usage_summary_lays_out_the_figures_present() {
    assert_eq!(
        usage_value_summary_text(Some("5"), Some("10"), Some("5"), "USD"),
        Some("5 / 10 USD left, 5 used".to_string())
    );
    assert_eq!(
        usage_value_summary_text(Some("5"), Some("10"), None, ""),
        Some("5 / 10  left".to_string())
    );
    assert_eq!(usage_value_summary_text(Some("3.50"), None, Some("1"), ""), Some("3.50".to_string()));
    assert_eq!(
        usage_value_summary_text(None, Some("10"), Some("4"), "req"),
        Some("4 / 10 req used".to_string())
    );
    assert_eq!(usage_value_summary_text(None, Some("10"), None, "req"), Some("total 10 req".to_string()));
    assert_eq!(usage_value_summary_text(None, None, Some("2"), ""), Some("used 2".to_string()));
    assert_eq!(usage_value_summary_text(None, None, None, "x"), None);
}

/// The calendar reading of a count of seconds, written out as the library's
/// specification of the sync time describes it.
fn calendar_minute_stamp(secs: i64) -> String {
    let days = secs.div_euclid(86_400);
    let rem = secs.rem_euclid(86_400);
    let z = days + 719_468;
    let era = z.div_euclid(146_097);
    let doe = z - era * 146_097;
    let yoe = (doe - doe / 1460 + doe / 36_524 - doe / 146_096) / 365;
    let doy = doe - (365 * yoe + yoe / 4 - yoe / 100);
    let mp = (5 * doy + 2) / 153;
    let d = doy - (153 * mp + 2) / 5 + 1;
    let m = if mp < 10 { mp + 3 } else { mp - 9 };
    let y = yoe + era * 400 + if m <= 2 { 1 } else { 0 };
    let year = if (0..=9999).contains(&y) {
        format!("{y:04}")
    } else if y > 9999 {
        format!("+{y:04}")
    } else {
        format!("-{:04}", -y)
    };
    format!("{year}/{m:02}/{d:02} {:02}:{:02}", rem / 3600, (rem % 3600) / 60)
}

#[test]
fn calendar_stamp_agrees_with_chrono_in_utc() {
    for ts in [
        0i64,
        1_735_689_600,
        951_782_400,
        -86_401,
        -62_135_596_800,
        -62_167_219_200,
        -62_198_755_200,
        253_402_300_800,
        4_102_444_799,
    ] {
        let utc = chrono::DateTime::from_timestamp(ts, 0).unwrap();
        assert_eq!(calendar_minute_stamp(ts), utc.format("%Y/%m/%d %H:%M").to_string());
    }
}

#[test]
fn sync_time_is_the_calendar_minute_under_some_offset() {
    let ts = 1_735_689_600i64;
    let formatted = format_sync_time_local_to_minute(ts).unwrap();
    let found = (0..2880).any(|k| calendar_minute_stamp(ts - 86_399 + 60 * k) == formatted);
    assert!(found);
}
