use cc_switch_tui::layout::openclaw_agents_section_block_height;
use cc_switch_tui::layout::openclaw_env_section_block_height;
use cc_switch_tui::layout::openclaw_tools_section_block_height;
use cc_switch_tui::layout::openclaw_workspace_row_height;
use cc_switch_tui::layout::openclaw_workspace_section_block_height;
use cc_switch_tui::layout::openclaw_workspace_summary_height;
use cc_switch_tui::layout::section_block_height;
use cc_switch_tui::layout::SectionRow;
use cc_switch_tui::layout::hermes_model_visual_row_index;
use cc_switch_tui::layout::compact_two_column_lines;
use cc_switch_tui::layout::{
    openclaw_warning_matches_section, openclaw_workspace_allocate_extra_line,
    openclaw_workspace_body_heights, section_parse_warnings, openclaw_workspace_visible_row_window, pad_display_width,
    section_line_heights, section_line_window, split_section_heights, wrapped_display_line_count,
    OpenClawHealthWarning,
};

#[test]
fn wrapped_display_line_count_rounds_up_and_counts_wide_chars() {
    assert_eq!(wrapped_display_line_count("hello world", 5), 3);
    assert_eq!(wrapped_display_line_count("", 10), 1);
    assert_eq!(wrapped_display_line_count("anything", 0), 1);
    assert_eq!(wrapped_display_line_count("名称", 3), 2);
}

#[test]
fn section_line_heights_only_wraps_marked_lines() {
    let lines = vec!["hello world".to_string(), "ab cd ef gh".to_string()];
    assert_eq!(section_line_heights(&lines, &[true, false], 5), vec![3, 1]);
}

#[test]
fn section_line_window_keeps_selected_line_visible() {
    assert_eq!(section_line_window(&[1, 1, 1, 1, 1], 4, Some(3)), (2, 4));
    assert_eq!(section_line_window(&[], 10, None), (0, 0));
    assert_eq!(section_line_window(&[1, 1], 2, None), (0, 0));
    assert_eq!(section_line_window(&[1, 1], 4, None), (0, 2));
    assert_eq!(section_line_window(&[5, 1], 4, Some(0)), (0, 1));
    assert_eq!(section_line_window(&[1, 1, 1, 1, 1], 4, Some(99)), (0, 2));
}

#[test]
fn split_section_heights_shares_space() {
    assert_eq!(split_section_heights(10, 4, 5, false), (4, 5));
    assert_eq!(split_section_heights(5, 4, 5, false), (3, 2));
    assert_eq!(split_section_heights(5, 4, 5, true), (2, 3));
    assert_eq!(split_section_heights(8, 4, 6, false), (4, 4));
    assert_eq!(split_section_heights(8, 4, 6, true), (3, 5));
    assert_eq!(split_section_heights(0, 4, 6, true), (0, 0));
}

#[test]
fn workspace_row_window_scrolls_to_selection() {
    assert_eq!(openclaw_workspace_visible_row_window(10, Some(7), 5), (5, 8));
    assert_eq!(openclaw_workspace_visible_row_window(10, None, 5), (0, 3));
    assert_eq!(openclaw_workspace_visible_row_window(2, Some(1), 10), (0, 2));
    assert_eq!(openclaw_workspace_visible_row_window(0, Some(0), 10), (0, 0));
    assert_eq!(openclaw_workspace_visible_row_window(5, Some(9), 4), (0, 2));
    assert_eq!(openclaw_workspace_visible_row_window(5, Some(1), 2), (0, 0));
}

#[test]
fn workspace_body_heights_deal_out_space() {
    assert_eq!(openclaw_workspace_body_heights(0, 4, 5, 6, false), (0, 0, 0));
    assert_eq!(openclaw_workspace_body_heights(20, 4, 5, 6, false), (4, 5, 6));
    assert_eq!(openclaw_workspace_body_heights(10, 4, 8, 8, false), (4, 3, 3));
    assert_eq!(openclaw_workspace_body_heights(12, 4, 8, 8, true), (4, 4, 4));
    assert_eq!(openclaw_workspace_body_heights(13, 4, 8, 8, true), (4, 4, 5));
    assert_eq!(openclaw_workspace_body_heights(13, 4, 8, 8, false), (4, 5, 4));
    assert_eq!(openclaw_workspace_body_heights(5, 4, 8, 8, false), (2, 3, 0));
    assert_eq!(openclaw_workspace_body_heights(5, 4, 8, 8, true), (2, 0, 3));
    assert_eq!(openclaw_workspace_body_heights(3, 10, 0, 0, false), (3, 0, 0));
}

#[test]
fn workspace_body_heights_never_exceed_available() {
    for available in 0..30u16 {
        for summary in 0..8u16 {
            for files in 0..12u16 {
                for daily in [0u16, 2, 5, 11] {
                    for prioritize in [false, true] {
                        let (s, f, d) = openclaw_workspace_body_heights(
                            available, summary, files, daily, prioritize,
                        );
                        assert!(s + f + d <= available);
                        assert!(s <= summary);
                    }
                }
            }
        }
    }
}

#[test]
fn allocate_extra_line_moves_one_line() {
    let (mut extra, mut fh, mut fnd, mut dh, mut dn) = (2u16, 1u16, 1u16, 3u16, 2u16);
    openclaw_workspace_allocate_extra_line(true, &mut extra, &mut fh, &mut fnd, &mut dh, &mut dn);
    assert_eq!((extra, fh, fnd, dh, dn), (1, 1, 1, 4, 1));
    openclaw_workspace_allocate_extra_line(false, &mut extra, &mut fh, &mut fnd, &mut dh, &mut dn);
    assert_eq!((extra, fh, fnd, dh, dn), (0, 2, 0, 4, 1));
    openclaw_workspace_allocate_extra_line(true, &mut extra, &mut fh, &mut fnd, &mut dh, &mut dn);
    assert_eq!((extra, fh, fnd, dh, dn), (0, 2, 0, 4, 1));
}

#[test]
fn warning_matches_section_by_path() {
    let untied = OpenClawHealthWarning {
        code: "config_parse_failed".to_string(),
        message: "m".to_string(),
        path: None,
    };
    let at = |p: &str| OpenClawHealthWarning {
        code: "config_parse_failed".to_string(),
        message: "m".to_string(),
        path: Some(p.to_string()),
    };
    assert!(openclaw_warning_matches_section(&untied, "agents.", None));
    assert!(openclaw_warning_matches_section(&at("agents"), "agents.", None));
    assert!(openclaw_warning_matches_section(&at("agents.list"), "agents.", None));
    assert!(!openclaw_warning_matches_section(&at("tools"), "agents.", None));
    assert!(openclaw_warning_matches_section(&at("tools"), "agents.", Some("tools")));
}

#[test]
fn pad_display_width_pads_to_columns() {
    assert_eq!(pad_display_width("ab", 4), "ab  ");
    assert_eq!(pad_display_width("名", 3), "名 ");
    assert_eq!(pad_display_width("abcdef", 3), "abcdef");
}

#[test]
fn block_heights_add_borders() {
    let lines = vec!["hello world".to_string(), "ab".to_string()];
    assert_eq!(section_block_height(&lines, 5), 6);
    assert_eq!(section_block_height(&[], 5), 2);
    assert_eq!(openclaw_env_section_block_height(&lines, 5), 6);
    let rows = vec![
        SectionRow {
            plain_text: "hello world".to_string(),
            wrap: true,
        },
        SectionRow {
            plain_text: "long text here".to_string(),
            wrap: false,
        },
    ];
    assert_eq!(openclaw_workspace_row_height(&rows[0], 5), 3);
    assert_eq!(openclaw_workspace_row_height(&rows[1], 5), 1);
    assert_eq!(openclaw_workspace_summary_height(&rows, 5), 4);
    assert_eq!(openclaw_workspace_section_block_height(&rows, 5), 6);
    assert_eq!(openclaw_tools_section_block_height(&rows, 5), 6);
    assert_eq!(openclaw_agents_section_block_height(&rows, 5), 6);
}

#[test]
fn hermes_rows_leave_a_gap_after_each_group() {
    assert_eq!(hermes_model_visual_row_index(0), 0);
    assert_eq!(hermes_model_visual_row_index(2), 2);
    assert_eq!(hermes_model_visual_row_index(3), 4);
    assert_eq!(hermes_model_visual_row_index(7), 9);
}

#[test]
fn compact_two_column_lines_pairs_up_four_lines() {
    let lines: Vec<String> = ["Name: a", "Size: 10", "Date: x", "Mode: y"]
        .iter()
        .map(|s| s.to_string())
        .collect();
    assert_eq!(
        compact_two_column_lines(&lines, 40),
        Some(vec![
            "Name: a    Size: 10".to_string(),
            "Date: x    Mode: y".to_string()
        ])
    );
    assert_eq!(compact_two_column_lines(&lines, 19).map(|v| v.len()), Some(2));
    assert_eq!(compact_two_column_lines(&lines, 18), None);
    assert_eq!(compact_two_column_lines(&lines[..3], 40), None);
}

#[test]
fn section_banner_keeps_its_parse_failures() {
    let w = |code: &str, path: Option<&str>| OpenClawHealthWarning {
        code: code.to_string(),
        message: "m".to_string(),
        path: path.map(|p| p.to_string()),
    };
    let warnings = vec![
        w("config_parse_failed", Some("agents.defaults.model")),
        w("config_parse_failed", Some("tools.exec")),
        w("missing_model", Some("agents.defaults.model")),
        w("config_parse_failed", None),
        w("config_parse_failed", Some("/home/me/.openclaw/openclaw.json")),
    ];
    let kept = section_parse_warnings(
        &warnings,
        "agents.defaults.",
        Some("/home/me/.openclaw/openclaw.json"),
    );
    assert_eq!(kept, vec![warnings[0].clone(), warnings[3].clone(), warnings[4].clone()]);
}
