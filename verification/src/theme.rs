//! Terminal colour handling: choosing a colour mode from the environment and
//! mapping the fixed palette onto what the terminal can show.
use vstd::prelude::*;

use crate::text::{
    ascii_lower, ascii_lower_chars, chars_eq_str, chars_of, contains, contains_chars, ends_with,
    ends_with_chars, trim, trim_chars,
};

verus! {

pub const DRACULA_GREEN: (u8, u8, u8) = (80, 250, 123);
pub const DRACULA_CYAN: (u8, u8, u8) = (139, 233, 253);
pub const DRACULA_PINK: (u8, u8, u8) = (255, 121, 198);
pub const DRACULA_ORANGE: (u8, u8, u8) = (255, 184, 108);
pub const DRACULA_YELLOW: (u8, u8, u8) = (241, 250, 140);
pub const DRACULA_RED: (u8, u8, u8) = (255, 85, 85);
pub const DRACULA_COMMENT: (u8, u8, u8) = (98, 114, 164);
pub const DRACULA_SURFACE: (u8, u8, u8) = (68, 71, 90);

/// How colours are written to the terminal.
#[derive(Debug, Clone, Copy, PartialEq, Eq, Structural)]
pub enum ColorMode {
    NoColor,
    TrueColor,
    Ansi256,
}

/// The applications whose providers the TUI manages.
#[derive(Debug, Clone, Copy, PartialEq, Eq, Structural)]
pub enum AppType {
    Claude,
    Codex,
    Gemini,
    OpenCode,
}

/// A terminal colour: the terminal default, a 24-bit colour or an entry of
/// the 256-colour palette.
#[derive(Debug, Clone, Copy, PartialEq, Eq, Structural)]
pub enum TermColor {
    Reset,
    Rgb(u8, u8, u8),
    Indexed(u8),
}

/// The colours the TUI paints with.
#[derive(Debug, Clone, Copy, PartialEq, Eq, Structural)]
pub struct Theme {
    pub accent: TermColor,
    pub ok: TermColor,
    pub warn: TermColor,
    pub err: TermColor,
    pub dim: TermColor,
    /// Muted text / secondary info (Dracula comment #6272a4)
    pub comment: TermColor,
    /// Highlighted values (Dracula cyan #8be9fd)
    pub cyan: TermColor,
    /// Subtle background / surface (Dracula current-line #44475a)
    pub surface: TermColor,
    pub no_color: bool,
}

/// What the environment says about the terminal, read once by the caller.
/// A variable that is unset, or not valid Unicode, is `None`.
pub struct TerminalEnv {
    /// `NO_COLOR` is set (to anything).
    pub no_color: bool,
    /// `CC_SWITCH_COLOR_MODE`
    pub color_mode: Option<String>,
    /// `COLORTERM`
    pub colorterm: Option<String>,
    /// `TERM`
    pub term: Option<String>,
    /// `TERM_PROGRAM`
    pub term_program: Option<String>,
    /// `SSH_TTY` is set (to anything).
    pub ssh_tty: bool,
}

pub open spec fn parse_color_mode_spec(value: Seq<char>) -> Option<ColorMode> {
    let n = ascii_lower(trim(value));
    if n == "none"@ || n == "no-color"@ {
        Some(ColorMode::NoColor)
    } else if n == "rgb"@ || n == "truecolor"@ || n == "24bit"@ || n == "24-bit"@ {
        Some(ColorMode::TrueColor)
    } else if n == "ansi256"@ || n == "ansi-256"@ || n == "256"@ || n == "256color"@ || n
        == "256-color"@ {
        Some(ColorMode::Ansi256)
    } else {
        None
    }
}

/// Reads an explicit colour-mode request; blank, `auto` and unknown values
/// ask for automatic detection (`None`).
pub fn parse_color_mode(value: &str) -> (mode: Option<ColorMode>)
    ensures
        mode == parse_color_mode_spec(value@),
{
    let raw = chars_of(value);
    let trimmed = trim_chars(&raw);
    let n = ascii_lower_chars(&trimmed);
    if chars_eq_str(&n, "none") || chars_eq_str(&n, "no-color") {
        Some(ColorMode::NoColor)
    } else if chars_eq_str(&n, "rgb") || chars_eq_str(&n, "truecolor") || chars_eq_str(&n, "24bit")
        || chars_eq_str(&n, "24-bit") {
        Some(ColorMode::TrueColor)
    } else if chars_eq_str(&n, "ansi256") || chars_eq_str(&n, "ansi-256") || chars_eq_str(&n, "256")
        || chars_eq_str(&n, "256color") || chars_eq_str(&n, "256-color") {
        Some(ColorMode::Ansi256)
    } else {
        None
    }
}

pub open spec fn opt_view(v: Option<String>) -> Option<Seq<char>> {
    match v {
        Some(s) => Some(s@),
        None => None,
    }
}

pub open spec fn supports_truecolor_spec(value: Option<Seq<char>>) -> bool {
    match value {
        Some(v) => {
            let n = ascii_lower(v);
            contains(n, "truecolor"@) || contains(n, "24bit"@) || contains(n, "24-bit"@)
                || contains(n, "-direct"@) || ends_with(n, "direct"@)
        },
        None => false,
    }
}

pub open spec fn supports_ansi256_spec(value: Option<Seq<char>>) -> bool {
    match value {
        Some(v) => {
            let n = ascii_lower(v);
            contains(n, "256color"@) || contains(n, "256-color"@)
        },
        None => false,
    }
}

/// Whether a `COLORTERM`/`TERM` value advertises 24-bit colour.
pub fn env_supports_truecolor(value: &Option<String>) -> (b: bool)
    ensures
        b == supports_truecolor_spec(opt_view(*value)),
{
    match value {
        Some(v) => {
            let raw = chars_of(v.as_str());
            let n = ascii_lower_chars(&raw);
            contains_chars(&n, &chars_of("truecolor")) || contains_chars(&n, &chars_of("24bit"))
                || contains_chars(&n, &chars_of("24-bit")) || contains_chars(
                &n,
                &chars_of("-direct"),
            ) || ends_with_chars(&n, &chars_of("direct"))
        },
        None => false,
    }
}

/// Whether a `TERM` value advertises the 256-colour palette.
pub fn env_supports_ansi256(value: &Option<String>) -> (b: bool)
    ensures
        b == supports_ansi256_spec(opt_view(*value)),
{
    match value {
        Some(v) => {
            let raw = chars_of(v.as_str());
            let n = ascii_lower_chars(&raw);
            contains_chars(&n, &chars_of("256color")) || contains_chars(&n, &chars_of("256-color"))
        },
        None => false,
    }
}

/// Apple's Terminal.app, which lacks 24-bit colour.
pub fn known_ansi256_terminal(term_program: &Option<String>) -> (b: bool)
    ensures
        b == (opt_view(*term_program) == Some("Apple_Terminal"@)),
{
    match term_program {
        Some(v) => {
            let raw = chars_of(v.as_str());
            chars_eq_str(&raw, "Apple_Terminal")
        },
        None => false,
    }
}

/// A plain `xterm` reached over SSH is assumed to lack 24-bit colour.
pub fn ssh_plain_xterm_prefers_ansi256(ssh_tty: bool, term: &Option<String>) -> (b: bool)
    ensures
        b == (ssh_tty && match opt_view(*term) {
            Some(t) => ascii_lower(t) == "xterm"@,
            None => false,
        }),
{
    if !ssh_tty {
        return false;
    }
    match term {
        Some(v) => {
            let raw = chars_of(v.as_str());
            let n = ascii_lower_chars(&raw);
            chars_eq_str(&n, "xterm")
        },
        None => false,
    }
}

pub open spec fn detected_color_mode_spec(env: TerminalEnv) -> ColorMode {
    let override_mode = match opt_view(env.color_mode) {
        Some(v) => parse_color_mode_spec(v),
        None => None,
    };
    if env.no_color {
        ColorMode::NoColor
    } else if override_mode is Some {
        override_mode->0
    } else if opt_view(env.term_program) == Some("Apple_Terminal"@) {
        ColorMode::Ansi256
    } else if supports_truecolor_spec(opt_view(env.colorterm)) || supports_truecolor_spec(
        opt_view(env.term),
    ) {
        ColorMode::TrueColor
    } else if supports_ansi256_spec(opt_view(env.term)) {
        ColorMode::Ansi256
    } else if env.ssh_tty && match opt_view(env.term) {
        Some(t) => ascii_lower(t) == "xterm"@,
        None => false,
    } {
        ColorMode::Ansi256
    } else {
        ColorMode::TrueColor
    }
}

/// The colour mode for a terminal: `NO_COLOR` wins, then an explicit
/// request, then what the terminal advertises; 24-bit colour is the default.
pub fn detected_color_mode(env: &TerminalEnv) -> (mode: ColorMode)
    ensures
        mode == detected_color_mode_spec(*env),
        env.no_color ==> mode == ColorMode::NoColor,
{
    if env.no_color {
        return ColorMode::NoColor;
    }
    let override_mode = match &env.color_mode {
        Some(v) => parse_color_mode(v.as_str()),
        None => None,
    };
    if let Some(mode) = override_mode {
        return mode;
    }
    if known_ansi256_terminal(&env.term_program) {
        return ColorMode::Ansi256;
    }
    if env_supports_truecolor(&env.colorterm) || env_supports_truecolor(&env.term) {
        return ColorMode::TrueColor;
    }
    if env_supports_ansi256(&env.term) {
        return ColorMode::Ansi256;
    }
    if ssh_plain_xterm_prefers_ansi256(env.ssh_tty, &env.term) {
        return ColorMode::Ansi256;
    }
    ColorMode::TrueColor
}

pub open spec fn cube_index_spec(value: u8) -> u8 {
    if value <= 47 {
        0
    } else if value <= 114 {
        1
    } else if (value - 35) / 40 < 5 {
        ((value - 35) / 40) as u8
    } else {
        5
    }
}

pub open spec fn cube_level_spec(index: u8) -> u8 {
    if index == 0 {
        0
    } else {
        (55 + 40 * index) as u8
    }
}

/// The step of the 6x6x6 colour cube closest to a channel value.
pub fn cube_index(value: u8) -> (index: u8)
    ensures
        index == cube_index_spec(value),
        index <= 5,
{
    if value <= 47 {
        0
    } else if value <= 114 {
        1
    } else {
        let q = (value - 35) / 40;
        if q < 5 {
            q
        } else {
            5
        }
    }
}

/// The channel value of a colour-cube step.
pub fn cube_level(index: u8) -> (level: u8)
    requires
        index <= 5,
    ensures
        level == cube_level_spec(index),
{
    let levels: [u8; 6] = [0, 95, 135, 175, 215, 255];
    levels[index as usize]
}

pub open spec fn cube_spec(r: u8, g: u8, b: u8) -> (u8, u8, u8, u8) {
    let ri = cube_index_spec(r);
    let gi = cube_index_spec(g);
    let bi = cube_index_spec(b);
    (
        (16 + 36 * ri + 6 * gi + bi) as u8,
        cube_level_spec(ri),
        cube_level_spec(gi),
        cube_level_spec(bi),
    )
}

pub open spec fn gray_index_spec(r: u8, g: u8, b: u8) -> u8 {
    let avg = (r + g + b) / 3;
    if avg <= 8 {
        0
    } else if avg >= 238 {
        23
    } else if (avg - 3) / 10 < 23 {
        ((avg - 3) / 10) as u8
    } else {
        23
    }
}

pub open spec fn gray_spec(r: u8, g: u8, b: u8) -> (u8, u8, u8, u8) {
    let index = gray_index_spec(r, g, b);
    let level = (8 + index * 10) as u8;
    ((232 + index) as u8, level, level, level)
}

/// Nearest colour-cube entry: its palette index and its channel values.
pub fn ansi256_cube(r: u8, g: u8, b: u8) -> (out: (u8, u8, u8, u8))
    ensures
        out == cube_spec(r, g, b),
        16 <= out.0 <= 231,
{
    let ri = cube_index(r);
    let gi = cube_index(g);
    let bi = cube_index(b);
    (16 + (36 * ri) + (6 * gi) + bi, cube_level(ri), cube_level(gi), cube_level(bi))
}

/// Nearest entry of the grayscale ramp: its palette index and its channel values.
pub fn ansi256_gray(r: u8, g: u8, b: u8) -> (out: (u8, u8, u8, u8))
    ensures
        out == gray_spec(r, g, b),
        232 <= out.0,
{
    let avg = ((r as u16 + g as u16 + b as u16) / 3) as u8;
    let index: u8 = if avg <= 8 {
        0
    } else if avg >= 238 {
        23
    } else {
        let q = ((avg as u16 - 8 + 5) / 10) as u8;
        if q < 23 {
            q
        } else {
            23
        }
    };
    let level = 8 + index * 10;
    (232 + index, level, level, level)
}

pub open spec fn distance_sq_spec(lhs: (u8, u8, u8), rhs: (u8, u8, u8)) -> int {
    (lhs.0 - rhs.0) * (lhs.0 - rhs.0) + (lhs.1 - rhs.1) * (lhs.1 - rhs.1) + (lhs.2 - rhs.2) * (
    lhs.2 - rhs.2)
}

/// Squared euclidean distance of two colours.
pub fn color_distance_sq(lhs: (u8, u8, u8), rhs: (u8, u8, u8)) -> (d: u32)
    ensures
        d as int == distance_sq_spec(lhs, rhs),
{
    let dr = lhs.0 as i32 - rhs.0 as i32;
    let dg = lhs.1 as i32 - rhs.1 as i32;
    let db = lhs.2 as i32 - rhs.2 as i32;
    assert(dr * dr <= 65025 && dg * dg <= 65025 && db * db <= 65025) by (nonlinear_arith)
        requires
            -255 <= dr <= 255,
            -255 <= dg <= 255,
            -255 <= db <= 255,
    ;
    assert(0 <= dr * dr && 0 <= dg * dg && 0 <= db * db) by (nonlinear_arith);
    (dr * dr + dg * dg + db * db) as u32
}

pub open spec fn rgb_to_ansi256_spec(r: u8, g: u8, b: u8) -> u8 {
    let cube = cube_spec(r, g, b);
    let gray = gray_spec(r, g, b);
    if distance_sq_spec((r, g, b), (cube.1, cube.2, cube.3)) <= distance_sq_spec(
        (r, g, b),
        (gray.1, gray.2, gray.3),
    ) {
        cube.0
    } else {
        gray.0
    }
}

/// The 256-colour palette entry shown for an RGB colour: the nearer of the
/// nearest cube colour and the nearest gray, the cube winning ties.
pub fn rgb_to_ansi256(r: u8, g: u8, b: u8) -> (index: u8)
    ensures
        index == rgb_to_ansi256_spec(r, g, b),
        index >= 16,
{
    let source = (r, g, b);
    let cube = ansi256_cube(r, g, b);
    let gray = ansi256_gray(r, g, b);
    let cube_distance = color_distance_sq(source, (cube.1, cube.2, cube.3));
    let gray_distance = color_distance_sq(source, (gray.1, gray.2, gray.3));
    if cube_distance <= gray_distance {
        cube.0
    } else {
        gray.0
    }
}

pub open spec fn terminal_color_spec(mode: ColorMode, rgb: (u8, u8, u8)) -> TermColor {
    match mode {
        ColorMode::NoColor => TermColor::Reset,
        ColorMode::TrueColor => TermColor::Rgb(rgb.0, rgb.1, rgb.2),
        ColorMode::Ansi256 => TermColor::Indexed(rgb_to_ansi256_spec(rgb.0, rgb.1, rgb.2)),
    }
}

/// How a palette colour is written in a colour mode.
pub fn terminal_color(color_mode: ColorMode, rgb: (u8, u8, u8)) -> (c: TermColor)
    ensures
        c == terminal_color_spec(color_mode, rgb),
{
    match color_mode {
        ColorMode::NoColor => TermColor::Reset,
        ColorMode::TrueColor => TermColor::Rgb(rgb.0, rgb.1, rgb.2),
        ColorMode::Ansi256 => TermColor::Indexed(rgb_to_ansi256(rgb.0, rgb.1, rgb.2)),
    }
}

pub open spec fn accent_rgb_spec(app: AppType) -> (u8, u8, u8) {
    match app {
        AppType::Codex => DRACULA_GREEN,
        AppType::Claude => DRACULA_CYAN,
        AppType::Gemini => DRACULA_PINK,
        AppType::OpenCode => DRACULA_ORANGE,
    }
}

/// The accent colour of each application.
pub fn accent_rgb(app: &AppType) -> (rgb: (u8, u8, u8))
    ensures
        rgb == accent_rgb_spec(*app),
{
    match app {
        AppType::Codex => DRACULA_GREEN,
        AppType::Claude => DRACULA_CYAN,
        AppType::Gemini => DRACULA_PINK,
        AppType::OpenCode => DRACULA_ORANGE,
    }
}

pub open spec fn theme_spec(app: AppType, mode: ColorMode) -> Theme {
    Theme {
        accent: terminal_color_spec(mode, accent_rgb_spec(app)),
        ok: terminal_color_spec(mode, DRACULA_GREEN),
        warn: terminal_color_spec(mode, DRACULA_YELLOW),
        err: terminal_color_spec(mode, DRACULA_RED),
        dim: terminal_color_spec(mode, DRACULA_COMMENT),
        comment: terminal_color_spec(mode, DRACULA_COMMENT),
        cyan: terminal_color_spec(mode, DRACULA_CYAN),
        surface: terminal_color_spec(mode, DRACULA_SURFACE),
        no_color: mode == ColorMode::NoColor,
    }
}

/// The theme of an application in a given terminal.
pub fn theme_for(app: &AppType, env: &TerminalEnv) -> (theme: Theme)
    ensures
        theme == theme_spec(*app, detected_color_mode_spec(*env)),
{
    let color_mode = detected_color_mode(env);
    let no_color = match color_mode {
        ColorMode::NoColor => true,
        _ => false,
    };
    Theme {
        accent: terminal_color(color_mode, accent_rgb(app)),
        ok: terminal_color(color_mode, DRACULA_GREEN),
        warn: terminal_color(color_mode, DRACULA_YELLOW),
        err: terminal_color(color_mode, DRACULA_RED),
        dim: terminal_color(color_mode, DRACULA_COMMENT),
        comment: terminal_color(color_mode, DRACULA_COMMENT),
        cyan: terminal_color(color_mode, DRACULA_CYAN),
        surface: terminal_color(color_mode, DRACULA_SURFACE),
        no_color,
    }
}

/// `NO_COLOR` wins over everything else the environment says.
pub proof fn law_no_color_wins(env: TerminalEnv)
    requires
        env.no_color,
    ensures
        detected_color_mode_spec(env) == ColorMode::NoColor,
{
}

/// Without `NO_COLOR`, an explicit `CC_SWITCH_COLOR_MODE` that names a mode
/// wins over what the terminal advertises.
pub proof fn law_explicit_mode_wins(env: TerminalEnv, value: String, mode: ColorMode)
    requires
        !env.no_color,
        env.color_mode == Some(value),
        parse_color_mode_spec(value@) == Some(mode),
    ensures
        detected_color_mode_spec(env) == mode,
{
}

/// Without colour the theme paints nothing: every colour is the terminal
/// default, and the theme says so.
pub proof fn law_no_color_theme_is_plain(app: AppType)
    ensures
        ({
            let t = theme_spec(app, ColorMode::NoColor);
            &&& t.no_color
            &&& t.accent == TermColor::Reset
            &&& t.ok == TermColor::Reset
            &&& t.warn == TermColor::Reset
            &&& t.err == TermColor::Reset
            &&& t.dim == TermColor::Reset
            &&& t.comment == TermColor::Reset
            &&& t.cyan == TermColor::Reset
            &&& t.surface == TermColor::Reset
        }),
{
}

/// With 24-bit colour the theme uses its RGB colours unchanged.
pub proof fn law_truecolor_keeps_rgb(app: AppType)
    ensures
        ({
            let t = theme_spec(app, ColorMode::TrueColor);
            let a = accent_rgb_spec(app);
            &&& !t.no_color
            &&& t.accent == TermColor::Rgb(a.0, a.1, a.2)
            &&& t.surface == TermColor::Rgb(DRACULA_SURFACE.0, DRACULA_SURFACE.1, DRACULA_SURFACE.2)
        }),
{
}

/// The 256-colour mapping never picks one of the sixteen system colours,
/// whose look depends on the terminal's own palette.
pub proof fn law_ansi256_avoids_system_colors(r: u8, g: u8, b: u8)
    ensures
        rgb_to_ansi256_spec(r, g, b) >= 16,
{
    let cube = cube_spec(r, g, b);
    let gray = gray_spec(r, g, b);
    assert(cube.0 >= 16);
    assert(gray.0 >= 232);
}

/// The 256-colour mapping picks the nearer of its two candidates.
pub proof fn law_ansi256_picks_nearer_candidate(r: u8, g: u8, b: u8)
    ensures
        ({
            let cube = cube_spec(r, g, b);
            let gray = gray_spec(r, g, b);
            let picked = rgb_to_ansi256_spec(r, g, b);
            let dc = distance_sq_spec((r, g, b), (cube.1, cube.2, cube.3));
            let dg = distance_sq_spec((r, g, b), (gray.1, gray.2, gray.3));
            (picked == cube.0 && dc <= dg) || (picked == gray.0 && dg < dc)
        }),
{
}

} // verus!
