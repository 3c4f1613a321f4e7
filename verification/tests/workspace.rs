use cc_switch_tui::workspace::{count_nonoverlapping, first_match_in_lowered};
use cc_switch_tui::workspace::{
    count_case_insensitive_matches, daily_memory_date, daily_memory_entry_accepted,
    delete_daily_memory_file, ensure_daily_memory_root_safe, ensure_path_not_symlink,
    first_case_insensitive_match_range, is_symlink, list_daily_memory_files,
    lowercase_with_char_map, open_workspace_directory, preview_text, read_daily_memory_file,
    read_workspace_file, search_daily_memory_files, search_query_is_blank, snippet_text,
    sort_entries_desc, truncate_chars, validate_daily_memory_filename,
    validate_workspace_filename, workspace_file_exists, write_daily_memory_file,
    write_workspace_file, DailyMemoryEntry, PathProbe, PathStatus, ReadPlan, WorkspaceDir,
};

fn probe(display: &str, status: PathStatus) -> PathProbe {
    PathProbe {
        display: display.to_string(),
        status,
    }
}

fn never_inspected() -> PathProbe {
    panic!("the file was inspected before the name and directory checks")
}

fn ok_dir() -> PathProbe {
    probe("/home/me/.openclaw/workspace", PathStatus::Present)
}

fn entry(name: &str, content: Option<&str>) -> DailyMemoryEntry {
    DailyMemoryEntry {
        filename: name.to_string(),
        content: content.map(|c| c.to_string()),
        size_bytes: 10,
        modified_at: 5,
    }
}

#[test]
fn workspace_filenames_are_whitelisted() {
    assert!(validate_workspace_filename("AGENTS.md").is_ok());
    assert!(validate_workspace_filename("BOOT.md").is_ok());
    assert_eq!(
        validate_workspace_filename("../etc/passwd"),
        Err("Invalid workspace filename: ../etc/passwd".to_string())
    );
    assert!(validate_workspace_filename("agents.md").is_err());
}

#[test]
fn daily_memory_filenames_follow_date_pattern() {
    assert!(validate_daily_memory_filename("2025-01-31.md").is_ok());
    assert_eq!(
        validate_daily_memory_filename("2025-1-31.md"),
        Err("Invalid daily memory filename: 2025-1-31.md".to_string())
    );
    assert!(validate_daily_memory_filename("2025-01-31.md.bak").is_err());
    assert!(validate_daily_memory_filename("notes.md").is_err());
    assert!(daily_memory_entry_accepted(true, "2024-12-01.md"));
    assert!(!daily_memory_entry_accepted(false, "2024-12-01.md"));
    assert!(!daily_memory_entry_accepted(true, "x.md"));
}

#[test]
fn daily_memory_date_strips_md_suffix() {
    assert_eq!(daily_memory_date("2025-01-31.md"), "2025-01-31");
    assert_eq!(daily_memory_date("a.md.md"), "a");
    assert_eq!(daily_memory_date("plain"), "plain");
}

#[test]
fn truncate_and_preview_count_characters() {
    assert_eq!(truncate_chars("héllo", 3), "hél...");
    assert_eq!(truncate_chars("abc", 3), "abc");
    let long = "é".repeat(130);
    let preview = preview_text(&long);
    assert_eq!(preview.chars().count(), 123);
    assert!(preview.ends_with("..."));
    assert_eq!(preview_text("short"), "short");
}

#[test]
fn snippet_keeps_forty_characters_of_context() {
    let content = format!("{}MATCH{}", "a".repeat(50), "b".repeat(50));
    let snippet = snippet_text(&content, 50, 55);
    assert_eq!(
        snippet,
        format!("...{}MATCH{}...", "a".repeat(40), "b".repeat(40))
    );
    assert_eq!(snippet_text("xx MATCH yy", 3, 8), "xx MATCH yy");
}

#[test]
fn snippet_takes_byte_offsets_and_counts_characters() {
    let content = format!("{}MATCH{}", "é".repeat(50), "b".repeat(50));
    let (start, end) = first_case_insensitive_match_range(&content, "match").unwrap();
    assert_eq!((start, end), (100, 105));
    assert_eq!(
        snippet_text(&content, start, end),
        format!("...{}MATCH{}...", "é".repeat(40), "b".repeat(40))
    );
}

#[test]
fn case_insensitive_matching_counts_non_overlapping_hits() {
    assert_eq!(count_case_insensitive_matches("Hello hello HELLO", "hello"), 3);
    assert_eq!(count_case_insensitive_matches("aaaa", "aa"), 2);
    assert_eq!(count_case_insensitive_matches("abc", ""), 0);
    assert_eq!(count_case_insensitive_matches("abc", "x"), 0);
}

#[test]
fn first_match_range_is_in_original_bytes() {
    assert_eq!(first_case_insensitive_match_range("Über ÜBER", "über"), Some((0, 5)));
    assert_eq!(first_case_insensitive_match_range("İAB", "ab"), Some((2, 4)));
    assert_eq!(first_case_insensitive_match_range("Hello WORLD world", "world"), Some((6, 11)));
    assert_eq!(first_case_insensitive_match_range("xx Rust yy", "rust"), Some((3, 7)));
    assert_eq!(first_case_insensitive_match_range("xx", "rust"), None);
    assert_eq!(first_case_insensitive_match_range("xx", ""), None);
}

#[test]
fn lowercase_char_map_points_back_to_source() {
    let chars: Vec<char> = "AİB".chars().collect();
    let (low, starts, ends) = lowercase_with_char_map(&chars);
    assert_eq!(low.len(), starts.len());
    assert_eq!(low.len(), ends.len());
    assert_eq!(low[0], 'a');
    assert_eq!(starts[0], 0);
    assert_eq!(ends[0], 1);
    assert_eq!(*starts.last().unwrap(), 2);
    assert_eq!(*ends.last().unwrap(), 3);
}

#[test]
fn list_daily_memory_files_sorts_newest_first_with_previews() {
    let listed = list_daily_memory_files(vec![
        entry("2025-01-01.md", Some("first")),
        entry("2025-03-01.md", None),
        entry("2025-02-01.md", Some("second")),
    ]);
    let names: Vec<&str> = listed.iter().map(|i| i.filename.as_str()).collect();
    assert_eq!(names, vec!["2025-03-01.md", "2025-02-01.md", "2025-01-01.md"]);
    assert_eq!(listed[0].preview, "");
    assert_eq!(listed[1].preview, "second");
    assert_eq!(listed[1].date, "2025-02-01");
    assert_eq!(listed[2].size_bytes, 10);
    assert_eq!(listed[2].modified_at, 5);
}

#[test]
fn sort_entries_desc_orders_by_filename() {
    let sorted = sort_entries_desc(vec![entry("b", None), entry("c", None), entry("a", None)]);
    let names: Vec<&str> = sorted.iter().map(|e| e.filename.as_str()).collect();
    assert_eq!(names, vec!["c", "b", "a"]);
}

#[test]
fn search_matches_dates_and_text() {
    let entries = vec![
        entry("2025-01-01.md", Some("Met Alice for lunch. alice again.")),
        entry("2025-02-01.md", Some("nothing here")),
        entry("2025-03-01.md", None),
    ];
    let hits = search_daily_memory_files("  ALICE ".to_string(), entries.clone());
    assert_eq!(hits.len(), 1);
    assert_eq!(hits[0].filename, "2025-01-01.md");
    assert_eq!(hits[0].match_count, 2);
    assert_eq!(hits[0].snippet, "Met Alice for lunch. alice again.");

    let by_date = search_daily_memory_files("2025-0".to_string(), entries.clone());
    let names: Vec<&str> = by_date.iter().map(|r| r.filename.as_str()).collect();
    assert_eq!(names, vec!["2025-03-01.md", "2025-02-01.md", "2025-01-01.md"]);
    assert_eq!(by_date[0].snippet, "");
    assert_eq!(by_date[1].snippet, "nothing here");
    assert_eq!(by_date[1].match_count, 0);

    assert!(search_daily_memory_files("   ".to_string(), entries).is_empty());
    assert!(search_query_is_blank(" \t"));
    assert!(!search_query_is_blank(" a "));
}

#[test]
fn symlink_probes() {
    assert_eq!(is_symlink(&probe("p", PathStatus::Missing)), Ok(false));
    assert_eq!(is_symlink(&probe("p", PathStatus::Symlink)), Ok(true));
    assert_eq!(
        is_symlink(&probe("p", PathStatus::InspectFailed("denied".to_string()))),
        Err("Failed to inspect file metadata p: denied".to_string())
    );
    assert_eq!(
        ensure_path_not_symlink(&probe("/w", PathStatus::Symlink), "workspace directory"),
        Err("Refusing to use symlinked workspace directory: /w".to_string())
    );
    assert!(ensure_daily_memory_root_safe(&ok_dir(), &probe("m", PathStatus::Missing)).is_ok());
    assert!(ensure_daily_memory_root_safe(&ok_dir(), &probe("m", PathStatus::Symlink)).is_err());
}

#[test]
fn workspace_file_operations_check_names_and_symlinks() {
    let file = probe("/w/AGENTS.md", PathStatus::Present);
    assert_eq!(workspace_file_exists("AGENTS.md".to_string(), &ok_dir(), || file.clone()), Ok(true));
    assert_eq!(
        workspace_file_exists(
            "AGENTS.md".to_string(),
            &ok_dir(),
            || probe("/w/AGENTS.md", PathStatus::Symlink)
        ),
        Ok(false)
    );
    assert!(workspace_file_exists("nope.md".to_string(), &ok_dir(), || file.clone()).is_err());
    assert!(write_workspace_file("SOUL.md".to_string(), &ok_dir()).is_ok());
    assert!(write_workspace_file(
        "SOUL.md".to_string(),
        &probe("/w", PathStatus::Symlink)
    )
    .is_err());
    assert_eq!(
        read_workspace_file("USER.md".to_string(), &ok_dir(), || file.clone()),
        Ok(ReadPlan::Read)
    );
    assert_eq!(
        read_workspace_file(
            "USER.md".to_string(),
            &ok_dir(),
            || probe("/w/USER.md", PathStatus::Missing)
        ),
        Ok(ReadPlan::Absent)
    );
    assert_eq!(
        read_workspace_file(
            "USER.md".to_string(),
            &ok_dir(),
            || probe("/w/USER.md", PathStatus::Symlink)
        ),
        Err("Refusing to read workspace file symlink: /w/USER.md".to_string())
    );
}

#[test]
fn daily_memory_operations_check_names_and_symlinks() {
    let memory = probe("/w/memory", PathStatus::Present);
    let note = probe("/w/memory/2025-01-01.md", PathStatus::Present);
    assert!(write_daily_memory_file("2025-01-01.md".to_string(), &ok_dir(), &memory).is_ok());
    assert!(write_daily_memory_file("bad.md".to_string(), &ok_dir(), &memory).is_err());
    assert_eq!(
        read_daily_memory_file("2025-01-01.md".to_string(), &ok_dir(), &memory, || note.clone()),
        Ok(ReadPlan::Read)
    );
    assert_eq!(
        read_daily_memory_file(
            "2025-01-01.md".to_string(),
            &ok_dir(),
            &memory,
            || probe("/w/memory/2025-01-01.md", PathStatus::Symlink)
        ),
        Err("Refusing to read daily memory symlink: /w/memory/2025-01-01.md".to_string())
    );
    assert_eq!(
        delete_daily_memory_file("2025-01-01.md".to_string(), &ok_dir(), &memory, || false),
        Ok(false)
    );
    assert_eq!(
        delete_daily_memory_file("2025-01-01.md".to_string(), &ok_dir(), &memory, || true),
        Ok(true)
    );
}

#[test]
fn open_workspace_directory_picks_target() {
    let memory = probe("/w/memory", PathStatus::Missing);
    assert_eq!(
        open_workspace_directory((), "memory".to_string(), &ok_dir(), &memory),
        Ok(WorkspaceDir::DailyMemory)
    );
    assert_eq!(
        open_workspace_directory((), "".to_string(), &ok_dir(), &memory),
        Ok(WorkspaceDir::Workspace)
    );
    assert!(open_workspace_directory(
        (),
        "memory".to_string(),
        &ok_dir(),
        &probe("/w/memory", PathStatus::Symlink)
    )
    .is_err());
}

#[test]
fn workspace_commands_pass_on_their_error_texts() {
    let linked = probe("/w", PathStatus::Symlink);
    let memory_linked = probe("/w/memory", PathStatus::Symlink);
    assert_eq!(
        workspace_file_exists("agents.md".to_string(), &ok_dir(), never_inspected),
        Err("Invalid workspace filename: agents.md".to_string())
    );
    assert_eq!(
        workspace_file_exists("AGENTS.md".to_string(), &linked, never_inspected),
        Err("Refusing to use symlinked workspace directory: /w".to_string())
    );
    assert_eq!(
        write_workspace_file("../AGENTS.md".to_string(), &ok_dir()),
        Err("Invalid workspace filename: ../AGENTS.md".to_string())
    );
    assert_eq!(
        write_daily_memory_file("2024-1-05.md".to_string(), &ok_dir(), &ok_dir()),
        Err("Invalid daily memory filename: 2024-1-05.md".to_string())
    );
    assert_eq!(
        write_daily_memory_file("2024-01-05.md".to_string(), &ok_dir(), &memory_linked),
        Err("Refusing to use symlinked daily memory directory: /w/memory".to_string())
    );
    assert_eq!(
        delete_daily_memory_file("x.md".to_string(), &ok_dir(), &ok_dir(), || -> bool { panic!("looked for before the checks") }),
        Err("Invalid daily memory filename: x.md".to_string())
    );
    assert_eq!(
        open_workspace_directory((), "memory".to_string(), &ok_dir(), &memory_linked),
        Err("Refusing to use symlinked daily memory directory: /w/memory".to_string())
    );
    assert_eq!(
        open_workspace_directory((), "".to_string(), &linked, &ok_dir()),
        Err("Refusing to use symlinked workspace directory: /w".to_string())
    );
}

#[test]
fn search_ignores_surrounding_blanks_and_ascii_case() {
    let entries = || {
        vec![
            entry("2025-01-02.md", Some("Learned Rust today")),
            entry("2025-01-01.md", Some("nothing here")),
            entry("2024-12-31.md", Some("RUST and rust")),
        ]
    };
    let plain = search_daily_memory_files("rust".to_string(), entries());
    assert_eq!(plain.len(), 2);
    assert_eq!(search_daily_memory_files("  rust\t".to_string(), entries()), plain);
    assert_eq!(search_daily_memory_files("RUST".to_string(), entries()), plain);
    assert_eq!(search_daily_memory_files("Rust".to_string(), entries()), plain);
}

#[test]
fn lowered_text_helpers_count_and_locate() {
    let low: Vec<char> = "aaaa rust".chars().collect();
    assert_eq!(count_nonoverlapping(&low, &"aa".chars().collect()), 2);
    assert_eq!(count_nonoverlapping(&low, &Vec::new()), 0);
    assert_eq!(first_match_in_lowered(&low, &"rust".chars().collect()), Some(5));
    assert_eq!(first_match_in_lowered(&low, &"go".chars().collect()), None);
}
