use cc_switch_tui::theme::{
    accent_rgb, ansi256_cube, ansi256_gray, color_distance_sq, cube_index, cube_level,
    detected_color_mode, env_supports_ansi256, env_supports_truecolor, known_ansi256_terminal,
    parse_color_mode, rgb_to_ansi256, ssh_plain_xterm_prefers_ansi256, terminal_color, theme_for,
    AppType, ColorMode, TermColor, TerminalEnv,
};

fn env(
    no_color: bool,
    color_mode: Option<&str>,
    colorterm: Option<&str>,
    term: Option<&str>,
    term_program: Option<&str>,
    ssh_tty: bool,
) -> TerminalEnv {
    TerminalEnv {
        no_color,
        color_mode: color_mode.map(|s| s.to_string()),
        colorterm: colorterm.map(|s| s.to_string()),
        term: term.map(|s| s.to_string()),
        term_program: term_program.map(|s| s.to_string()),
        ssh_tty,
    }
}

#[test]
fn ansi256_mapping_keeps_curated_indices_for_fixed_v5_palette() {
    assert_eq!(rgb_to_ansi256(80, 250, 123), 84);
    assert_eq!(rgb_to_ansi256(139, 233, 253), 117);
    assert_eq!(rgb_to_ansi256(255, 121, 198), 212);
    assert_eq!(rgb_to_ansi256(255, 184, 108), 215);
    assert_eq!(rgb_to_ansi256(241, 250, 140), 228);
    assert_eq!(rgb_to_ansi256(255, 85, 85), 203);
    assert_eq!(rgb_to_ansi256(98, 114, 164), 61);
    assert_eq!(rgb_to_ansi256(68, 71, 90), 239);
    assert_eq!(rgb_to_ansi256(101, 113, 160), 61);
    assert_eq!(rgb_to_ansi256(248, 248, 248), 231);
    assert_eq!(rgb_to_ansi256(108, 108, 108), 242);
    assert_eq!(rgb_to_ansi256(255, 255, 255), 231);
}

#[test]
fn opencode_theme_uses_distinct_accent_from_codex() {
    let e = env(false, None, None, None, None, false);
    let opencode = theme_for(&AppType::OpenCode, &e);
    let codex = theme_for(&AppType::Codex, &e);
    assert_ne!(opencode.accent, codex.accent);
}

#[test]
fn theme_keeps_rgb_colors_when_truecolor_is_available() {
    let e = env(false, None, Some("truecolor"), Some("xterm-256color"), None, false);
    let theme = theme_for(&AppType::Claude, &e);
    assert_eq!(detected_color_mode(&e), ColorMode::TrueColor);
    assert_eq!(theme.accent, TermColor::Rgb(139, 233, 253));
    assert_eq!(theme.surface, TermColor::Rgb(68, 71, 90));
    assert!(!theme.no_color);
}

#[test]
fn theme_defaults_to_rgb_when_terminal_capability_is_unknown() {
    let e = env(false, None, None, None, None, false);
    let theme = theme_for(&AppType::OpenCode, &e);
    assert_eq!(detected_color_mode(&e), ColorMode::TrueColor);
    assert_eq!(theme.accent, TermColor::Rgb(255, 184, 108));
    assert_eq!(theme.surface, TermColor::Rgb(68, 71, 90));
    assert!(!theme.no_color);
}

#[test]
fn theme_uses_ansi256_when_term_advertises_xterm_256color() {
    let e = env(false, None, None, Some("xterm-256color"), None, false);
    let theme = theme_for(&AppType::Claude, &e);
    assert_eq!(detected_color_mode(&e), ColorMode::Ansi256);
    assert_eq!(theme.accent, TermColor::Indexed(rgb_to_ansi256(139, 233, 253)));
    assert_eq!(theme.surface, TermColor::Indexed(rgb_to_ansi256(68, 71, 90)));
    assert!(!theme.no_color);
}

#[test]
fn theme_uses_ansi256_when_term_advertises_tmux_256color() {
    let e = env(false, None, None, Some("tmux-256color"), None, false);
    let theme = theme_for(&AppType::Claude, &e);
    assert_eq!(detected_color_mode(&e), ColorMode::Ansi256);
    assert_eq!(theme.accent, TermColor::Indexed(rgb_to_ansi256(139, 233, 253)));
    assert!(!theme.no_color);
}

#[test]
fn theme_uses_ansi256_for_plain_xterm_over_ssh_without_truecolor_signal() {
    let e = env(false, None, None, Some("xterm"), None, true);
    let theme = theme_for(&AppType::Claude, &e);
    assert_eq!(detected_color_mode(&e), ColorMode::Ansi256);
    assert_eq!(theme.accent, TermColor::Indexed(rgb_to_ansi256(139, 233, 253)));
    assert_eq!(theme.surface, TermColor::Indexed(rgb_to_ansi256(68, 71, 90)));
}

#[test]
fn theme_keeps_truecolor_for_plain_xterm_without_ssh_signal() {
    let e = env(false, None, None, Some("xterm"), None, false);
    let theme = theme_for(&AppType::Claude, &e);
    assert_eq!(detected_color_mode(&e), ColorMode::TrueColor);
    assert_eq!(theme.accent, TermColor::Rgb(139, 233, 253));
}

#[test]
fn theme_keeps_truecolor_for_plain_xterm_over_ssh_with_explicit_truecolor_signal() {
    let e = env(false, None, Some("truecolor"), Some("xterm"), None, true);
    assert_eq!(detected_color_mode(&e), ColorMode::TrueColor);
}

#[test]
fn theme_keeps_truecolor_for_term_direct_over_ssh() {
    let e = env(false, None, None, Some("xterm-direct"), None, true);
    assert_eq!(detected_color_mode(&e), ColorMode::TrueColor);
}

#[test]
fn theme_uses_ansi256_when_explicitly_requested() {
    let e = env(false, Some("ansi256"), Some("truecolor"), Some("xterm-256color"), None, false);
    let theme = theme_for(&AppType::OpenCode, &e);
    assert_eq!(detected_color_mode(&e), ColorMode::Ansi256);
    assert_eq!(theme.accent, TermColor::Indexed(215));
    assert_eq!(theme.surface, TermColor::Indexed(239));
    assert!(!theme.no_color);
}

#[test]
fn no_color_has_priority_over_explicit_color_mode() {
    let e = env(true, Some("truecolor"), Some("truecolor"), Some("xterm-256color"), None, false);
    let theme = theme_for(&AppType::Gemini, &e);
    assert_eq!(detected_color_mode(&e), ColorMode::NoColor);
    assert_eq!(theme.accent, TermColor::Reset);
    assert_eq!(theme.surface, TermColor::Reset);
    assert!(theme.no_color);
}

#[test]
fn theme_uses_ansi256_in_apple_terminal_without_truecolor_signal() {
    let e = env(false, None, None, Some("xterm-256color"), Some("Apple_Terminal"), false);
    let theme = theme_for(&AppType::Claude, &e);
    assert_eq!(detected_color_mode(&e), ColorMode::Ansi256);
    assert_eq!(theme.accent, TermColor::Indexed(rgb_to_ansi256(139, 233, 253)));
}

#[test]
fn explicit_truecolor_override_beats_apple_terminal_auto_fallback() {
    let e = env(false, Some("truecolor"), None, Some("xterm-256color"), Some("Apple_Terminal"), false);
    let theme = theme_for(&AppType::Claude, &e);
    assert_eq!(detected_color_mode(&e), ColorMode::TrueColor);
    assert_eq!(theme.accent, TermColor::Rgb(139, 233, 253));
}

#[test]
fn parse_color_mode_accepts_aliases_and_ignores_case_and_blanks() {
    assert_eq!(parse_color_mode("  TrueColor "), Some(ColorMode::TrueColor));
    assert_eq!(parse_color_mode("24-bit"), Some(ColorMode::TrueColor));
    assert_eq!(parse_color_mode("256-COLOR"), Some(ColorMode::Ansi256));
    assert_eq!(parse_color_mode("no-color"), Some(ColorMode::NoColor));
    assert_eq!(parse_color_mode("none"), Some(ColorMode::NoColor));
    assert_eq!(parse_color_mode("auto"), None);
    assert_eq!(parse_color_mode(""), None);
    assert_eq!(parse_color_mode("sixteen"), None);
}

#[test]
fn env_capability_probes() {
    assert!(env_supports_truecolor(&Some("24BIT".to_string())));
    assert!(env_supports_truecolor(&Some("xterm-direct".to_string())));
    assert!(env_supports_truecolor(&Some("direct".to_string())));
    assert!(!env_supports_truecolor(&Some("xterm-256color".to_string())));
    assert!(!env_supports_truecolor(&None));
    assert!(env_supports_ansi256(&Some("screen-256COLOR".to_string())));
    assert!(!env_supports_ansi256(&Some("xterm".to_string())));
    assert!(!env_supports_ansi256(&None));
    assert!(known_ansi256_terminal(&Some("Apple_Terminal".to_string())));
    assert!(!known_ansi256_terminal(&Some("apple_terminal".to_string())));
    assert!(ssh_plain_xterm_prefers_ansi256(true, &Some("XTerm".to_string())));
    assert!(!ssh_plain_xterm_prefers_ansi256(false, &Some("xterm".to_string())));
    assert!(!ssh_plain_xterm_prefers_ansi256(true, &Some("xterm-256color".to_string())));
}

#[test]
fn cube_and_gray_helpers() {
    assert_eq!(cube_index(0), 0);
    assert_eq!(cube_index(47), 0);
    assert_eq!(cube_index(48), 1);
    assert_eq!(cube_index(114), 1);
    assert_eq!(cube_index(115), 2);
    assert_eq!(cube_index(255), 5);
    assert_eq!(cube_level(0), 0);
    assert_eq!(cube_level(1), 95);
    assert_eq!(cube_level(5), 255);
    assert_eq!(ansi256_cube(255, 0, 0), (196, 255, 0, 0));
    assert_eq!(ansi256_gray(8, 8, 8), (232, 8, 8, 8));
    assert_eq!(color_distance_sq((0, 0, 0), (3, 4, 0)), 25);
    assert_eq!(color_distance_sq((255, 255, 255), (0, 0, 0)), 3 * 255 * 255);
}

#[test]
fn terminal_color_follows_mode() {
    assert_eq!(terminal_color(ColorMode::NoColor, (1, 2, 3)), TermColor::Reset);
    assert_eq!(terminal_color(ColorMode::TrueColor, (1, 2, 3)), TermColor::Rgb(1, 2, 3));
    assert_eq!(terminal_color(ColorMode::Ansi256, (255, 255, 255)), TermColor::Indexed(231));
    assert_eq!(accent_rgb(&AppType::Codex), (80, 250, 123));
    assert_eq!(accent_rgb(&AppType::Gemini), (255, 121, 198));
}
