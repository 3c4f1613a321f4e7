use cc_switch_tui::sessions::{session_follow_up, SessionNotice, SessionOutcome};
use cc_switch_tui::sessions::{
    collapse_message_preview, message_window_start, path_basename, selected_message_visible_index,
    session_title, visible_message_window, SessionMeta,
};

#[test]
fn session_title_prefers_title_then_project_basename_then_short_id() {
    let titled = SessionMeta {
        provider_id: "codex".to_string(),
        session_id: "abcdef123456".to_string(),
        title: Some("Refactor".to_string()),
        summary: None,
        project_dir: Some("/tmp/project".to_string()),
        created_at: None,
        last_active_at: None,
        source_path: None,
        resume_command: None,
    };
    assert_eq!(session_title(&titled), "Refactor");

    let project = SessionMeta {
        title: None,
        ..titled.clone()
    };
    assert_eq!(session_title(&project), "project");

    let fallback = SessionMeta {
        title: None,
        project_dir: None,
        ..titled
    };
    assert_eq!(session_title(&fallback), "abcdef12");
}

#[test]
fn session_title_skips_blank_title_and_short_ids() {
    let meta = SessionMeta {
        provider_id: "codex".to_string(),
        session_id: "abc".to_string(),
        title: Some("   ".to_string()),
        summary: None,
        project_dir: None,
        created_at: None,
        last_active_at: None,
        source_path: None,
        resume_command: None,
    };
    assert_eq!(session_title(&meta), "abc");
}

#[test]
fn message_window_centers_selected_row() {
    assert_eq!(message_window_start(100, 50, 10), 46);
    assert_eq!(message_window_start(5, 4, 10), 0);
    assert_eq!(message_window_start(100, 99, 10), 91);
}

#[test]
fn message_window_start_with_tiny_height_shows_one_row() {
    assert_eq!(message_window_start(10, 3, 0), 3);
    assert_eq!(message_window_start(10, 3, 1), 3);
    assert_eq!(message_window_start(10, 3, 2), 3);
}

#[test]
fn path_basename_ignores_blanks_and_trailing_separators() {
    assert_eq!(path_basename("  /home/me/work/  "), "work");
    assert_eq!(path_basename("/tmp/project\\"), "project");
    assert_eq!(path_basename("   "), "");
    assert_eq!(path_basename("//"), "");
}

#[test]
fn visible_message_window_returns_slice_around_selection() {
    let messages: Vec<(usize, char)> = (0..20).map(|i| (i * 2, 'm')).collect();
    let window = visible_message_window(&messages, 10, 5);
    assert_eq!(window.len(), 4);
    assert_eq!(window[0].0, 16);
    assert_eq!(window[3].0, 22);
    assert_eq!(selected_message_visible_index(&messages, 6), Some(3));
    assert_eq!(selected_message_visible_index(&messages, 7), None);
}

#[test]
fn collapse_message_preview_joins_non_blank_lines() {
    assert_eq!(
        collapse_message_preview("  hello \n\n   world  \r\n"),
        "hello world"
    );
    assert_eq!(collapse_message_preview(""), "");
    let long = "x".repeat(200);
    let collapsed = collapse_message_preview(&long);
    assert_eq!(collapsed.chars().count(), 120);
    assert!(collapsed.ends_with('…'));
}

#[test]
fn path_basename_gives_a_component_of_the_path() {
    assert_eq!(path_basename("relative/dir/name"), "name");
    assert_eq!(path_basename("single"), "single");
}

#[test]
fn session_follow_up_clamps_selection_and_reports() {
    let up = session_follow_up(SessionOutcome::Scanned, true, 9, 4);
    assert_eq!(up.selected_idx, 3);
    assert_eq!(session_follow_up(SessionOutcome::Scanned, true, 2, 0).selected_idx, 0);
    assert_eq!(session_follow_up(SessionOutcome::Scanned, false, 9, 4).selected_idx, 9);
    let del = session_follow_up(SessionOutcome::Deleted, true, 5, 5);
    assert_eq!(del.selected_idx, 4);
    assert_eq!(del.notice, Some(SessionNotice::DeleteFinished));
    assert_eq!(session_follow_up(SessionOutcome::Deleted, false, 5, 5).notice, None);
    assert_eq!(
        session_follow_up(SessionOutcome::ScanFailed("x".to_string()), true, 1, 3).notice,
        Some(SessionNotice::RefreshFailed("x".to_string()))
    );
    assert!(session_follow_up(SessionOutcome::MessagesLoaded, true, 0, 0).clamp_message_selection);
}
