use cc_switch_tui::proxy_wave::{
    bar_symbol, dots, proxy_activity_wave, proxy_wave_lines, recent_samples, rev_dots,
    scale_samples,
};

#[test]
fn proxy_activity_wave_uses_real_request_history() {
    let flat = proxy_activity_wave(8, true, &[0, 0, 0, 0]);
    let burst = proxy_activity_wave(8, true, &[0, 1, 4, 8]);

    assert_eq!(flat, "⡀⡀⡀⡀⡀⡀⡀⡀");
    assert_ne!(burst, flat);
    assert!(burst.contains('⡀'), "{burst}");
    assert!(burst.contains('⣿'), "{burst}");
    assert!(
        burst.contains('⣀') || burst.contains('⣄') || burst.contains('⣤'),
        "{burst}"
    );
}

#[test]
fn proxy_wave_lines_left_pads_recent_samples() {
    let rows = proxy_wave_lines(8, 1, true, &[0, 1, 4, 8], &dots(), false);
    assert_eq!(rows, vec!["⡀⡀⡀⡀⡀⣀⣤⣿".to_string()]);
}

#[test]
fn proxy_wave_lines_reverses_rows_for_lower_half() {
    let rows = proxy_wave_lines(4, 2, true, &[0, 1, 4, 8], &rev_dots(), true);
    assert_eq!(rows.len(), 2);
    assert!(rows[0].contains('⠁') || rows[0].contains('⠉'));
    assert!(rows[0].contains('⣿'));
    assert!(rows[1].contains('⣿'));
}

#[test]
fn proxy_wave_lines_keep_baseline_when_burst_appears() {
    let upper = proxy_wave_lines(8, 1, true, &[0, 1, 4, 8], &dots(), false);
    let lower = proxy_wave_lines(8, 1, true, &[0, 1, 4, 8], &rev_dots(), true);
    assert!(upper[0].contains('⡀'), "{:?}", upper);
    assert!(lower[0].contains('⠁'), "{:?}", lower);
    assert!(upper[0].contains('⣿'), "{:?}", upper);
}

#[test]
fn proxy_wave_lines_without_route_draws_blank_rows() {
    let rows = proxy_wave_lines(3, 2, false, &[5, 5, 5], &dots(), false);
    assert_eq!(rows.len(), 2);
    for row in rows {
        assert_eq!(row.chars().count(), 3);
    }
}

#[test]
fn recent_samples_left_pads_and_keeps_latest() {
    assert_eq!(recent_samples(4, true, &[7, 8]), vec![0, 0, 7, 8]);
    assert_eq!(recent_samples(2, true, &[1, 2, 3]), vec![2, 3]);
    assert_eq!(recent_samples(3, false, &[1, 2, 3]), vec![0, 0, 0]);
}

#[test]
fn scale_samples_maps_peak_to_full_height() {
    let scaled = scale_samples(1, &[0, 1, 4, 8], true);
    assert_eq!(scaled[3], 8);
    assert_eq!(scaled[0], 1);
}

#[test]
fn bar_symbol_uses_levels() {
    let set = dots();
    assert_eq!(bar_symbol(0, &set), set.empty);
    assert_eq!(bar_symbol(8, &set), set.full);
    assert_eq!(bar_symbol(100, &set), set.full);
}

#[test]
fn scaling_keeps_zero_on_baseline_and_traffic_above_it() {
    assert_eq!(scale_samples(2, &[0, 5, 0, 100], true), vec![1, 2, 1, 16]);
    assert_eq!(scale_samples(2, &[0, 5, 0, 100], false), vec![0, 1, 0, 16]);
    assert_eq!(scale_samples(3, &[0, 0], true), vec![1, 1]);
}

#[test]
fn reversed_wave_is_the_rows_upside_down() {
    let samples = [0u64, 3, 9, 1, 0, 7];
    let up = proxy_wave_lines(5, 3, true, &samples, &dots(), false);
    let down = proxy_wave_lines(5, 3, true, &samples, &dots(), true);
    assert_eq!(down, up.into_iter().rev().collect::<Vec<_>>());
}

#[test]
fn busiest_sample_fills_its_column() {
    let set = dots();
    let rows = proxy_wave_lines(3, 2, true, &[0, 5, 10], &set, false);
    assert_eq!(rows.len(), 2);
    for row in &rows {
        assert_eq!(row.chars().nth(2).unwrap().to_string(), set.full);
    }
}

#[test]
fn unrouted_wave_is_all_empty_cells() {
    let set = dots();
    let rows = proxy_wave_lines(3, 2, false, &[5, 7, 9], &set, false);
    assert_eq!(rows, vec![set.empty.repeat(3), set.empty.repeat(3)]);
}
