use cc_switch_tui::sessions::message_window_start;
use cc_switch_tui::theme::{ansi256_cube, ansi256_gray, color_distance_sq, rgb_to_ansi256};
use cc_switch_tui::workspace::{sort_entries_desc, DailyMemoryEntry};

#[test]
fn ansi256_mapping_avoids_system_colors_and_picks_nearer() {
    for r in (0u16..=255).step_by(17) {
        for g in (0u16..=255).step_by(51) {
            for b in (0u16..=255).step_by(85) {
                let (r, g, b) = (r as u8, g as u8, b as u8);
                let picked = rgb_to_ansi256(r, g, b);
                assert!(picked >= 16);
                let cube = ansi256_cube(r, g, b);
                let gray = ansi256_gray(r, g, b);
                let dc = color_distance_sq((r, g, b), (cube.1, cube.2, cube.3));
                let dg = color_distance_sq((r, g, b), (gray.1, gray.2, gray.3));
                if dc <= dg {
                    assert_eq!(picked, cube.0);
                } else {
                    assert_eq!(picked, gray.0);
                }
            }
        }
    }
}

#[test]
fn message_window_always_shows_selected() {
    for total in 1usize..40 {
        for selected in 0..total {
            for height in 0u16..12 {
                let start = message_window_start(total, selected, height);
                let rows = if height <= 1 { 1 } else { (height - 1) as usize };
                assert!(start <= selected && selected < start + rows);
            }
        }
    }
}

#[test]
fn listing_is_a_newest_first_rearrangement() {
    let names = ["2024-05-01.md", "2025-01-02.md", "2023-12-31.md", "2025-01-02.md", "2024-11-11.md"];
    let entries: Vec<DailyMemoryEntry> = names
        .iter()
        .enumerate()
        .map(|(i, n)| DailyMemoryEntry {
            filename: n.to_string(),
            content: None,
            size_bytes: i as u64,
            modified_at: 0,
        })
        .collect();
    let sorted = sort_entries_desc(entries.clone());
    assert_eq!(sorted.len(), entries.len());
    for pair in sorted.windows(2) {
        assert!(pair[0].filename >= pair[1].filename);
    }
    let mut a: Vec<u64> = sorted.iter().map(|e| e.size_bytes).collect();
    a.sort();
    assert_eq!(a, vec![0, 1, 2, 3, 4]);
    // equal names keep their order
    let equal: Vec<u64> = sorted
        .iter()
        .filter(|e| e.filename == "2025-01-02.md")
        .map(|e| e.size_bytes)
        .collect();
    assert_eq!(equal, vec![1, 3]);
}
