//! Layout and text helpers shared by the TUI pages.
use vstd::prelude::*;

use crate::text::{
    ascii_lower, ascii_lower_char_exec, ascii_lower_chars, chars_eq_str, chars_of, decimal,
    decimal_chars, ends_with, ends_with_chars, extend_chars, join, join_chars, push_repeat,
    push_str_chars, repeat_char, string_of, trim, trim_chars, views,
};
use crate::width::{
    char_cols, char_display_width, char_width, chars_width, cols_sum, str_display_width, str_width,
};

verus! {

/// A rectangle of terminal cells.
#[derive(Debug, Clone, Copy, PartialEq, Eq, Structural)]
pub struct Rect {
    pub x: u16,
    pub y: u16,
    pub width: u16,
    pub height: u16,
}

/// Left-pad a cell value with one space for visual inset inside table rows.
pub fn cell_pad(s: &str) -> (out: String)
    ensures
        out@ == seq![' '] + s@,
{
    let mut v: Vec<char> = Vec::new();
    v.push(' ');
    push_str_chars(&mut v, s);
    string_of(&v)
}

pub open spec fn is_label_colon(c: char) -> bool {
    c == ':' || c == '\u{ff1a}'
}

/// `label` without its trailing ASCII and full-width colons.
pub open spec fn strip_colons(s: Seq<char>) -> Seq<char>
    decreases s.len(),
{
    if s.len() > 0 && is_label_colon(s.last()) {
        strip_colons(s.drop_last())
    } else {
        s
    }
}

proof fn lemma_strip_colons_cut(s: Seq<char>, k: int)
    requires
        0 <= k <= s.len(),
        forall|j: int| k <= j < s.len() ==> is_label_colon(#[trigger] s[j]),
    ensures
        strip_colons(s) == strip_colons(s.subrange(0, k)),
    decreases s.len() - k,
{
    if k < s.len() {
        assert(s.drop_last().subrange(0, k) =~= s.subrange(0, k));
        lemma_strip_colons_cut(s.drop_last(), k);
    } else {
        assert(s.subrange(0, k) =~= s);
    }
}

/// A field label without trailing `:` or `：`.
pub fn strip_trailing_colon(label: &str) -> (out: String)
    ensures
        out@ == strip_colons(label@),
{
    let chars = chars_of(label);
    let mut end = chars.len();
    while end > 0 && (chars[end - 1] == ':' || chars[end - 1] == '\u{ff1a}')
        invariant
            end <= chars@.len(),
            forall|j: int| end <= j < chars@.len() ==> is_label_colon(#[trigger] chars@[j]),
        decreases end,
    {
        end -= 1;
    }
    proof {
        lemma_strip_colons_cut(chars@, end as int);
        if end > 0 {
            assert(chars@.subrange(0, end as int).last() == chars@[end - 1]);
        }
    }
    let mut kept: Vec<char> = Vec::new();
    let mut i: usize = 0;
    while i < end
        invariant
            i <= end <= chars@.len(),
            kept@ == chars@.subrange(0, i as int),
        decreases end - i,
    {
        kept.push(chars[i]);
        i += 1;
        assert(kept@ =~= chars@.subrange(0, i as int));
    }
    string_of(&kept)
}

pub open spec fn pad_spec(text: Seq<char>, width: nat) -> Seq<char> {
    let w = str_display_width(text);
    if w >= width {
        text
    } else {
        text + repeat_char(' ', (width - w) as nat)
    }
}

/// `label` without trailing colons, padded with spaces to `width` columns.
pub fn pad_to_display_width(label: &str, width: usize) -> (out: String)
    ensures
        out@ == pad_spec(strip_colons(label@), width as nat),
{
    let clean = strip_trailing_colon(label);
    let w = str_width(clean.as_str());
    if w >= width {
        clean
    } else {
        let mut v = chars_of(clean.as_str());
        push_repeat(&mut v, ' ', width - w);
        string_of(&v)
    }
}

/// How many leading characters of `s` fit into `budget` columns when laid out
/// one by one.
pub open spec fn fit_len(s: Seq<char>, budget: int) -> nat
    decreases s.len(),
{
    if s.len() == 0 {
        0
    } else if char_cols(s[0]) > budget {
        0
    } else {
        1 + fit_len(s.drop_first(), budget - char_cols(s[0]))
    }
}

pub open spec fn truncate_spec(text: Seq<char>, width: nat) -> Seq<char> {
    if width == 0 {
        Seq::empty()
    } else if str_display_width(text) <= width {
        text
    } else if width == 1 {
        seq!['\u{2026}']
    } else {
        text.take(fit_len(text, width - 1) as int).push('\u{2026}')
    }
}

/// `text` cut to `width` columns, an ellipsis marking a cut.
pub fn truncate_to_display_width(text: &str, width: u16) -> (out: String)
    ensures
        out@ == truncate_spec(text@, width as nat),
        width >= 2 && str_display_width(text@) > width ==> cols_sum(out@.drop_last()) <= width - 1,
{
    let width = width as usize;
    if width == 0 {
        return String::new();
    }
    if str_width(text) <= width {
        let all = chars_of(text);
        return string_of(&all);
    }
    if width == 1 {
        let mut v: Vec<char> = Vec::new();
        v.push('\u{2026}');
        return string_of(&v);
    }
    let chars = chars_of(text);
    let budget = width - 1;
    let mut out: Vec<char> = Vec::new();
    let mut used: usize = 0;
    let mut i: usize = 0;
    let mut done = false;
    assert(chars@.skip(0) =~= chars@);
    while i < chars.len() && !done
        invariant
            i <= chars@.len(),
            used <= budget,
            out@ == chars@.take(i as int),
            used as nat == cols_sum(chars@.take(i as int)),
            fit_len(chars@, budget as int) == i + fit_len(chars@.skip(i as int), budget - used),
            done ==> fit_len(chars@.skip(i as int), budget - used) == 0,
        decreases chars@.len() - i, if done { 0int } else { 1int },
    {
        let c = chars[i];
        let w = match char_width(c) {
            Some(w) => w,
            None => 0,
        };
        assert(chars@.skip(i as int)[0] == c);
        if w > budget - used {
            done = true;
        } else {
            out.push(c);
            proof {
                assert(chars@.skip(i as int).drop_first() =~= chars@.skip(i + 1));
                assert(chars@.take(i + 1).drop_last() =~= chars@.take(i as int));
            }
            used = used + w;
            i += 1;
            assert(out@ =~= chars@.take(i as int));
        }
    }
    assert(chars@.skip(i as int).len() == 0 ==> fit_len(chars@.skip(i as int), budget - used) == 0);
    out.push('\u{2026}');
    assert(out@.drop_last() =~= chars@.take(i as int));
    string_of(&out)
}


pub open spec fn str_views(segments: Seq<&str>) -> Seq<Seq<char>> {
    segments.map_values(|s: &str| s@)
}

/// Sub-page titles show their place in the hierarchy (" Usage › Details ").
pub fn breadcrumb_title(segments: &[&str]) -> (out: String)
    ensures
        out@ == seq![' '] + join(str_views(segments@), " \u{203a} "@) + seq![' '],
{
    let mut parts: Vec<Vec<char>> = Vec::new();
    let mut i: usize = 0;
    while i < segments.len()
        invariant
            i <= segments@.len(),
            views(parts@) == str_views(segments@).take(i as int),
        decreases segments@.len() - i,
    {
        let seg: &str = segments[i];
        let cs = chars_of(seg);
        assert(cs@ == str_views(segments@)[i as int]);
        let ghost before = parts@;
        assert(views(before).len() == i);
        assert(before.len() == i);
        parts.push(cs);
        i += 1;
        assert forall|k: int| 0 <= k < i implies views(parts@)[k] == str_views(segments@).take(
            i as int,
        )[k] by {
            if k < i - 1 {
                assert(parts@[k] == before[k]);
                assert(views(before)[k] == str_views(segments@).take(i - 1)[k]);
            }
        }
        assert(views(parts@) =~= str_views(segments@).take(i as int));
    }
    assert(str_views(segments@).take(segments@.len() as int) =~= str_views(segments@));
    let sep = chars_of(" \u{203a} ");
    let body = join_chars(&parts, &sep);
    let mut out: Vec<char> = Vec::new();
    out.push(' ');
    extend_chars(&mut out, &body);
    out.push(' ');
    assert(out@ =~= seq![' '] + body@ + seq![' ']);
    string_of(&out)
}

/// One uptime component such as `3h`.
pub open spec fn unit_part(value: nat, unit: char) -> Seq<char> {
    decimal(value).push(unit)
}

pub open spec fn uptime_parts(total: nat) -> Seq<Seq<char>> {
    let days = total / 86400;
    let hours = (total % 86400) / 3600;
    let minutes = (total % 3600) / 60;
    let seconds = total % 60;
    let p1 = if days > 0 { seq![unit_part(days, 'd')] } else { Seq::empty() };
    let p2 = if hours > 0 { p1.push(unit_part(hours, 'h')) } else { p1 };
    let p3 = if minutes > 0 { p2.push(unit_part(minutes, 'm')) } else { p2 };
    if seconds > 0 || p3.len() == 0 { p3.push(unit_part(seconds, 's')) } else { p3 }
}

/// A compact uptime such as `1d 2h 3s`: the non-zero components, seconds
/// also when nothing else is shown.
pub fn format_uptime_compact(total_seconds: u64) -> (out: String)
    ensures
        out@ == join(uptime_parts(total_seconds as nat), seq![' ']),
{
    let days = total_seconds / 86_400;
    let hours = (total_seconds % 86_400) / 3_600;
    let minutes = (total_seconds % 3_600) / 60;
    let seconds = total_seconds % 60;
    let mut parts: Vec<Vec<char>> = Vec::new();
    if days > 0 {
        let mut p = decimal_chars(days);
        p.push('d');
        parts.push(p);
    }
    if hours > 0 {
        let mut p = decimal_chars(hours);
        p.push('h');
        parts.push(p);
    }
    if minutes > 0 {
        let mut p = decimal_chars(minutes);
        p.push('m');
        parts.push(p);
    }
    if seconds > 0 || parts.len() == 0 {
        let mut p = decimal_chars(seconds);
        p.push('s');
        parts.push(p);
    }
    assert(views(parts@) =~= uptime_parts(total_seconds as nat));
    let mut sep: Vec<char> = Vec::new();
    sep.push(' ');
    let out = join_chars(&parts, &sep);
    assert(sep@ =~= seq![' ']);
    string_of(&out)
}

pub open spec fn inset_left_spec(area: Rect, left: u16) -> Rect {
    if area.width <= left {
        area
    } else {
        Rect { x: (area.x + left) as u16, y: area.y, width: (area.width - left) as u16, height: area.height }
    }
}

/// `area` without its `left` leftmost columns (unchanged when too narrow).
pub fn inset_left(area: Rect, left: u16) -> (out: Rect)
    requires
        area.width > left ==> area.x + left <= u16::MAX,
    ensures
        out == inset_left_spec(area, left),
{
    if area.width <= left {
        return Rect { x: area.x, y: area.y, width: area.width, height: area.height };
    }
    Rect { x: area.x + left, y: area.y, width: area.width - left, height: area.height }
}

pub open spec fn inset_horizontal_spec(area: Rect, inset: u16) -> Rect {
    let shrink = if 2 * inset > u16::MAX { u16::MAX as int } else { 2 * inset };
    if area.width <= shrink {
        area
    } else {
        Rect {
            x: (area.x + inset) as u16,
            y: area.y,
            width: (area.width - shrink) as u16,
            height: area.height,
        }
    }
}

/// `area` without `inset` columns on each side (unchanged when too narrow).
pub fn inset_horizontal(area: Rect, inset: u16) -> (out: Rect)
    requires
        area.width > (if inset * 2 > u16::MAX { u16::MAX as int } else { inset * 2 }) ==> area.x + inset <= u16::MAX,
    ensures
        out == inset_horizontal_spec(area, inset),
{
    let shrink = if inset > u16::MAX / 2 { u16::MAX } else { inset * 2 };
    if area.width <= shrink {
        return area;
    }
    Rect { x: area.x + inset, y: area.y, width: area.width - shrink, height: area.height }
}

pub open spec fn inset_top_spec(area: Rect, top: u16) -> Rect {
    if area.height <= top {
        area
    } else {
        Rect { x: area.x, y: (area.y + top) as u16, width: area.width, height: (area.height - top) as u16 }
    }
}

/// `area` without its `top` topmost rows (unchanged when too short).
pub fn inset_top(area: Rect, top: u16) -> (out: Rect)
    requires
        area.height > top ==> area.y + top <= u16::MAX,
    ensures
        out == inset_top_spec(area, top),
{
    if area.height <= top {
        return Rect { x: area.x, y: area.y, width: area.width, height: area.height };
    }
    Rect { x: area.x, y: area.y + top, width: area.width, height: area.height - top }
}

/// Widest label, in columns truncated to `u16` as the layout stores them.
pub open spec fn max_label_width(labels: Seq<&str>) -> u16
    decreases labels.len(),
{
    if labels.len() == 0 {
        0
    } else {
        let rest = max_label_width(labels.drop_last());
        let w = str_display_width(labels.last()@) as u16;
        if w > rest { w } else { rest }
    }
}

/// Width of a label column: the widest label plus `left_padding`, saturating.
pub fn field_label_column_width(labels: &[&str], left_padding: u16) -> (w: u16)
    ensures
        w as int == if max_label_width(labels@) + left_padding > u16::MAX { u16::MAX as int } else {
            max_label_width(labels@) + left_padding
        },
{
    let mut max: u16 = 0;
    let mut i: usize = 0;
    while i < labels.len()
        invariant
            i <= labels@.len(),
            max == max_label_width(labels@.take(i as int)),
        decreases labels@.len() - i,
    {
        let w = str_width(labels[i]) as u16;
        assert(labels@.take(i + 1).drop_last() =~= labels@.take(i as int));
        if w > max {
            max = w;
        }
        i += 1;
    }
    assert(labels@.take(labels@.len() as int) =~= labels@);
    max.saturating_add(left_padding)
}

/// The text shown in place of a secret value.
pub fn redacted_secret_placeholder() -> (s: &'static str)
    ensures
        s@ == "[redacted]"@,
{
    "[redacted]"
}

pub open spec fn is_ascii_alnum(c: char) -> bool {
    ('0' <= c <= '9') || ('a' <= c <= 'z') || ('A' <= c <= 'Z')
}

/// A key reduced to lower-case ASCII letters and digits.
pub open spec fn normalized_key(key: Seq<char>) -> Seq<char> {
    ascii_lower(key.filter(|c: char| is_ascii_alnum(c)))
}

pub open spec fn is_sensitive_key_spec(key: Seq<char>) -> bool {
    let n = normalized_key(key);
    ||| n == "authorization"@
    ||| ends_with(n, "authorization"@)
    ||| ends_with(n, "apikey"@)
    ||| ends_with(n, "token"@)
    ||| ends_with(n, "password"@)
    ||| ends_with(n, "secret"@)
    ||| ends_with(n, "awsaccesskeyid"@)
    ||| ends_with(n, "awssecretaccesskey"@)
    ||| ends_with(n, "secretkey"@)
}

/// Whether a JSON key names a credential whose value must not be shown,
/// ignoring case and punctuation (`api_key`, `X-Auth-Token`, ...).
pub fn is_sensitive_display_key(key: &str) -> (b: bool)
    ensures
        b == is_sensitive_key_spec(key@),
{
    let chars = chars_of(key);
    let mut n: Vec<char> = Vec::new();
    let mut i: usize = 0;
    while i < chars.len()
        invariant
            i <= chars@.len(),
            n@ == normalized_key(chars@.take(i as int)),
        decreases chars@.len() - i,
    {
        let c = chars[i];
        proof {
            let t = chars@.take(i + 1);
            assert(t =~= chars@.take(i as int).push(c));
            chars@.take(i as int).lemma_filter_push(c, |c: char| is_ascii_alnum(c));
        }
        if ('0' <= c && c <= '9') || ('a' <= c && c <= 'z') || ('A' <= c && c <= 'Z') {
            n.push(ascii_lower_char_exec(c));
        }
        i += 1;
        assert(n@ =~= normalized_key(chars@.take(i as int)));
    }
    assert(chars@.take(chars@.len() as int) =~= chars@);
    chars_eq_str(&n, "authorization") || ends_with_chars(&n, &chars_of("authorization"))
        || ends_with_chars(&n, &chars_of("apikey")) || ends_with_chars(&n, &chars_of("token"))
        || ends_with_chars(&n, &chars_of("password")) || ends_with_chars(&n, &chars_of("secret"))
        || ends_with_chars(&n, &chars_of("awsaccesskeyid")) || ends_with_chars(
        &n,
        &chars_of("awssecretaccesskey"),
    ) || ends_with_chars(&n, &chars_of("secretkey"))
}

pub open spec fn is_digit(c: char) -> bool {
    '0' <= c && c <= '9'
}

/// The number written by the two digits `s[i]`, `s[i + 1]`.
pub open spec fn two_digit_value(s: Seq<char>, i: int) -> int {
    ((s[i] as int) - ('0' as int)) * 10 + ((s[i + 1] as int) - ('0' as int))
}

/// Two digits at `i` whose number lies in `lo..=hi`.
pub open spec fn two_digits_in(s: Seq<char>, i: int, lo: int, hi: int) -> bool {
    &&& is_digit(s[i])
    &&& is_digit(s[i + 1])
    &&& lo <= two_digit_value(s, i) <= hi
}

/// A year as `%Y` writes it: four digits, or a sign and at least four digits.
pub open spec fn is_year_text(y: Seq<char>) -> bool {
    ||| y.len() == 4 && forall|i: int| 0 <= i < 4 ==> is_digit(#[trigger] y[i])
    ||| y.len() >= 5 && (y[0] == '+' || y[0] == '-') && forall|i: int|
        1 <= i < y.len() ==> is_digit(#[trigger] y[i])
}

/// Text in the shape `YYYY/MM/DD HH:MM`: a year, then month `01`-`12`, day
/// `01`-`31`, hour `00`-`23` and minute `00`-`59`.
pub open spec fn is_minute_stamp(s: Seq<char>) -> bool {
    let n = s.len() as int;
    &&& n >= 16
    &&& is_year_text(s.subrange(0, n - 12))
    &&& s[n - 12] == '/'
    &&& two_digits_in(s, n - 11, 1, 12)
    &&& s[n - 9] == '/'
    &&& two_digits_in(s, n - 8, 1, 31)
    &&& s[n - 6] == ' '
    &&& two_digits_in(s, n - 5, 0, 23)
    &&& s[n - 3] == ':'
    &&& two_digits_in(s, n - 2, 0, 59)
}

/// Seconds far enough inside the range of dates that chrono represents
/// (years -262144 to 262142) that no time zone offset leaves it.
pub open spec fn in_chrono_range(ts: int) -> bool {
    -8_000_000_000_000 <= ts <= 8_000_000_000_000
}

/// `n` in decimal, with leading zeros up to `width` digits.
pub open spec fn zero_padded(n: nat, width: nat) -> Seq<char> {
    if decimal(n).len() >= width {
        decimal(n)
    } else {
        repeat_char('0', (width - decimal(n).len()) as nat) + decimal(n)
    }
}

/// A year as `%Y` writes it: four digits (zero-padded) for years 0 to 9999,
/// otherwise a sign and at least four digits.
pub open spec fn year_text(y: int) -> Seq<char> {
    if 0 <= y <= 9999 {
        zero_padded(y as nat, 4)
    } else if y > 9999 {
        seq!['+'] + zero_padded(y as nat, 4)
    } else {
        seq!['-'] + zero_padded((-y) as nat, 4)
    }
}

/// The proleptic Gregorian `(year, month, day)` of a count of days since
/// 1970-01-01 (counting in 400-year eras of 146097 days from 0000-03-01).
pub open spec fn civil_from_days(days: int) -> (int, int, int) {
    let z = days + 719468;
    let era = z / 146097;
    let doe = z - era * 146097;
    let yoe = (doe - doe / 1460 + doe / 36524 - doe / 146096) / 365;
    let doy = doe - (365 * yoe + yoe / 4 - yoe / 100);
    let mp = (5 * doy + 2) / 153;
    let d = doy - (153 * mp + 2) / 5 + 1;
    let m = if mp < 10 {
        mp + 3
    } else {
        mp - 9
    };
    let y = yoe + era * 400 + if m <= 2 {
        1int
    } else {
        0int
    };
    (y, m, d)
}

/// The `YYYY/MM/DD HH:MM` text of a count of seconds since 1970-01-01
/// 00:00, read as a calendar date and time.
pub open spec fn minute_stamp_of(secs: int) -> Seq<char> {
    let days = secs / 86400;
    let rem = secs % 86400;
    let (y, m, d) = civil_from_days(days);
    year_text(y) + "/"@ + zero_padded(m as nat, 2) + "/"@ + zero_padded(d as nat, 2) + " "@
        + zero_padded((rem / 3600) as nat, 2) + ":"@ + zero_padded(((rem % 3600) / 60) as nat, 2)
}

/// The minute stamp of `ts` shifted by `offset` seconds.
pub open spec fn shifted_minute_stamp(ts: int, offset: int) -> Seq<char> {
    minute_stamp_of(ts + offset)
}

/// Calls chrono: `Local.timestamp_opt(ts, 0)`, `LocalResult::single` and
/// `DateTime::format("%Y/%m/%d %H:%M")`. `timestamp_opt` is documented to
/// give a single time for every number of seconds in range, so the result is
/// `Some` there. The local time is the UTC time shifted by the zone's offset
/// at that moment, a `FixedOffset` of less than a day either way; the text
/// is that date and minute, in the documented widths of `%Y`, `%m`, `%d`,
/// `%H` and `%M`. Which offset applies depends on the machine's time zone
/// and is not stated.
#[verifier::external_body]
fn local_minute_text(ts: i64) -> (r: Option<String>)
    ensures
        in_chrono_range(ts as int) ==> r is Some,
        r matches Some(s) ==> is_minute_stamp(s@),
        r matches Some(s) ==> exists|offset: int|
            -86400 < offset < 86400 && s@ == #[trigger] shifted_minute_stamp(ts as int, offset),
{
    chrono::TimeZone::timestamp_opt(&chrono::Local, ts, 0).single().map(|dt| dt.format("%Y/%m/%d %H:%M").to_string())
}

/// A Unix timestamp as local `YYYY/MM/DD HH:MM`, or `None` when it lies
/// outside the dates that chrono represents: the date and minute of the
/// timestamp shifted by the local zone's offset.
pub fn format_sync_time_local_to_minute(ts: i64) -> (r: Option<String>)
    ensures
        in_chrono_range(ts as int) ==> r is Some,
        r matches Some(s) ==> is_minute_stamp(s@),
        r matches Some(s) ==> exists|offset: int|
            -86400 < offset < 86400 && s@ == #[trigger] shifted_minute_stamp(ts as int, offset),
{
    local_minute_text(ts)
}

/// Columns of a key bar chip `key value`.
pub open spec fn chip_width_spec(key: Seq<char>, value: Seq<char>) -> int {
    str_display_width(key) + 1 + str_display_width(value)
}

/// Columns of a key bar chip: the key, a space and the value (capped at
/// `usize::MAX`).
pub fn key_bar_chip_width(key: &str, value: &str) -> (w: usize)
    ensures
        w == if chip_width_spec(key@, value@) > usize::MAX {
            usize::MAX as int
        } else {
            chip_width_spec(key@, value@)
        },
{
    str_width(key).saturating_add(1).saturating_add(str_width(value))
}

/// Columns that the first `n` chips take, with one column of padding on
/// each side and two between chips.
pub open spec fn chips_used(items: Seq<(&str, &str)>, n: int) -> int
    decreases n,
{
    if n <= 0 {
        2
    } else {
        chips_used(items, n - 1) + chip_width_spec(items[n - 1].0@, items[n - 1].1@) + if n > 1 {
            2int
        } else {
            0int
        }
    }
}

proof fn lemma_chips_used_monotonic(items: Seq<(&str, &str)>, m: int, n: int)
    requires
        0 <= m <= n <= items.len(),
    ensures
        chips_used(items, m) <= chips_used(items, n),
    decreases n - m,
{
    if m < n {
        lemma_chips_used_monotonic(items, m, n - 1);
    }
}

/// `count` leading chips fit and one more would not.
pub open spec fn fits_exactly(items: Seq<(&str, &str)>, width: int, count: int) -> bool {
    &&& 0 <= count <= items.len()
    &&& count > 0 ==> chips_used(items, count) <= width
    &&& count < items.len() ==> chips_used(items, count + 1) > width
}

/// How many leading chips fit into `width` columns.
pub open spec fn fit_count_spec(items: Seq<(&str, &str)>, width: int) -> int {
    choose|count: int| fits_exactly(items, width, count)
}

proof fn lemma_fit_count_unique(items: Seq<(&str, &str)>, width: int, count: int)
    requires
        fits_exactly(items, width, count),
    ensures
        fit_count_spec(items, width) == count,
{
    let other = fit_count_spec(items, width);
    assert(fits_exactly(items, width, other));
    if other < count {
        lemma_chips_used_monotonic(items, other + 1, count);
    } else if count < other {
        lemma_chips_used_monotonic(items, count + 1, other);
    }
}

/// How many leading chips fit into `width` columns, laid out as the key
/// bar draws them: one column of padding on each side, two between chips.
pub fn key_bar_fit_count(items: &[(&str, &str)], width: u16) -> (count: usize)
    ensures
        count <= items@.len(),
        count > 0 ==> chips_used(items@, count as int) <= width,
        count < items@.len() ==> chips_used(items@, count + 1) > width,
        count == fit_count_spec(items@, width as int),
{
    let width = width as u64;
    let mut used: u64 = 2;
    let mut count: usize = 0;
    let mut full = false;
    while count < items.len() && !full
        invariant
            count <= items@.len(),
            width <= u16::MAX,
            used == chips_used(items@, count as int),
            count > 0 ==> used <= width,
            used <= u16::MAX + 2,
            full ==> count < items@.len() && chips_used(items@, count + 1) > width,
        decreases items@.len() - count, if full { 0int } else { 1int },
    {
        let (key, value) = items[count];
        let mut chip: u64 = (str_width(key) as u64).saturating_add(1).saturating_add(str_width(value) as u64);
        if count > 0 {
            chip = chip.saturating_add(2);
        }
        if used > width || chip > width - used {
            full = true;
        } else {
            used += chip;
            count += 1;
        }
    }
    proof {
        lemma_fit_count_unique(items@, width as int, count as int);
    }
    count
}

/// Columns kept free for the closing `? more` chip and its gap, as a
/// `u16` (the low bits of a width past `u16::MAX`).
pub open spec fn reserved_width(more: Seq<char>) -> u16 {
    let w = chip_width_spec("?"@, more) + 2;
    (if w > u64::MAX { u64::MAX as int } else { w }) as u16
}

/// The chips to show in `width` columns: all of them when they fit, else
/// the leading ones that fit beside a closing `? more` chip (`more` being
/// its label).
pub fn key_bar_items_for_width<'a>(items: &[(&'a str, &'a str)], width: u16, more: &'a str) -> (out: Vec<(&'a str, &'a str)>)
    ensures
        fit_count_spec(items@, width as int) == items@.len() ==> out@ == items@,
        fit_count_spec(items@, width as int) < items@.len() ==> out@ == items@.take(
            fit_count_spec(items@, sat_sub(width as int, reserved_width(more@) as int)),
        ).push(("?", more)),
{
    let all = key_bar_fit_count(items, width);
    if all == items.len() {
        let mut out: Vec<(&'a str, &'a str)> = Vec::new();
        let mut i: usize = 0;
        while i < items.len()
            invariant
                i <= items@.len(),
                out@ == items@.take(i as int),
            decreases items@.len() - i,
        {
            out.push(items[i]);
            i += 1;
            assert(out@ =~= items@.take(i as int));
        }
        assert(items@.take(i as int) =~= items@);
        return out;
    }
    let chip: u64 = (str_width("?") as u64).saturating_add(1).saturating_add(str_width(more) as u64).saturating_add(2);
    let reserved = chip as u16;
    assert(reserved == reserved_width(more@));
    let count = key_bar_fit_count(items, width.saturating_sub(reserved));
    let mut out: Vec<(&'a str, &'a str)> = Vec::new();
    let mut i: usize = 0;
    while i < count
        invariant
            i <= count <= items@.len(),
            out@ == items@.take(i as int),
        decreases count - i,
    {
        out.push(items[i]);
        i += 1;
        assert(out@ =~= items@.take(i as int));
    }
    out.push(("?", more));
    out
}

/// Two-column field tables clip the value cell silently at the pane edge;
/// the value is cut beforehand, with an ellipsis, to what is left of
/// `table_width` after the label column, one column of spacing and the
/// selection marker `highlight_symbol`.
pub fn truncated_value_cell(value: &str, table_width: u16, label_col_width: u16, highlight_symbol: &str) -> (out: String)
    ensures
        out@ == truncate_spec(
            value@,
            sat_sub(sat_sub(sat_sub(table_width as int, label_col_width as int), 1), (str_display_width(highlight_symbol@) as u16) as int) as nat,
        ),
{
    let symbol_width = str_width(highlight_symbol) as u16;
    let value_width = table_width.saturating_sub(label_col_width).saturating_sub(1).saturating_sub(symbol_width);
    truncate_to_display_width(value, value_width)
}

/// `a - b`, or zero when `b` is larger.
pub open spec fn sat_sub(a: int, b: int) -> int {
    if a >= b {
        a - b
    } else {
        0
    }
}

/// A plan name worth showing: not blank and not `default` (in any ASCII
/// case), blanks around it included.
pub open spec fn shown_plan_name(name: Seq<char>) -> bool {
    trim(name).len() > 0 && ascii_lower(trim(name)) != "default"@
}

/// The plan name of a usage result, unless it is blank or the placeholder
/// `default`.
pub fn display_usage_plan_name<'a>(plan_name: Option<&'a str>) -> (shown: Option<&'a str>)
    ensures
        shown == match plan_name {
            Some(name) => if shown_plan_name(name@) {
                Some(name)
            } else {
                None
            },
            None => None,
        },
{
    proof {
        reveal_strlit("default");
    }
    match plan_name {
        Some(name) => {
            let trimmed = trim_chars(&chars_of(name));
            let lowered = ascii_lower_chars(&trimmed);
            if trimmed.len() > 0 && !chars_eq_str(&lowered, "default") {
                Some(name)
            } else {
                None
            }
        },
        None => None,
    }
}

/// The text of an optional string.
pub open spec fn opt_text(o: Option<&str>) -> Option<Seq<char>> {
    match o {
        Some(t) => Some(t@),
        None => None,
    }
}

/// The usage figures on one line, from the figures' texts: remaining and
/// total (with what was used), or whichever of them there is; `None` when
/// there is none. Surrounding blanks (such as those of an empty unit) are
/// trimmed.
pub open spec fn usage_summary_spec(
    remaining: Option<Seq<char>>,
    total: Option<Seq<char>>,
    used: Option<Seq<char>>,
    unit: Seq<char>,
) -> Option<Seq<char>> {
    let raw = match (remaining, total, used) {
        (Some(r), Some(t), Some(u)) => Some(r + " / "@ + t + " "@ + unit + " left, "@ + u + " used"@),
        (Some(r), Some(t), None) => Some(r + " / "@ + t + " "@ + unit + " left"@),
        (Some(r), None, _) => Some(r + " "@ + unit),
        (None, Some(t), Some(u)) => Some(u + " / "@ + t + " "@ + unit + " used"@),
        (None, Some(t), None) => Some("total "@ + t + " "@ + unit),
        (None, None, Some(u)) => Some("used "@ + u + " "@ + unit),
        (None, None, None) => None,
    };
    match raw {
        Some(x) => Some(trim(x)),
        None => None,
    }
}

/// Lays out the usage figures (already written as numbers) on one line;
/// see `usage_summary_spec`.
pub fn usage_value_summary_text(
    remaining: Option<&str>,
    total: Option<&str>,
    used: Option<&str>,
    unit: &str,
) -> (out: Option<String>)
    ensures
        match out {
            Some(o) => usage_summary_spec(opt_text(remaining), opt_text(total), opt_text(used), unit@)
                == Some(o@),
            None => usage_summary_spec(opt_text(remaining), opt_text(total), opt_text(used), unit@)
                is None,
        },
{
    let mut v: Vec<char> = Vec::new();
    match (remaining, total, used) {
        (Some(r), Some(t), Some(u)) => {
            push_str_chars(&mut v, r);
            push_str_chars(&mut v, " / ");
            push_str_chars(&mut v, t);
            push_str_chars(&mut v, " ");
            push_str_chars(&mut v, unit);
            push_str_chars(&mut v, " left, ");
            push_str_chars(&mut v, u);
            push_str_chars(&mut v, " used");
        },
        (Some(r), Some(t), None) => {
            push_str_chars(&mut v, r);
            push_str_chars(&mut v, " / ");
            push_str_chars(&mut v, t);
            push_str_chars(&mut v, " ");
            push_str_chars(&mut v, unit);
            push_str_chars(&mut v, " left");
        },
        (Some(r), None, _) => {
            push_str_chars(&mut v, r);
            push_str_chars(&mut v, " ");
            push_str_chars(&mut v, unit);
        },
        (None, Some(t), Some(u)) => {
            push_str_chars(&mut v, u);
            push_str_chars(&mut v, " / ");
            push_str_chars(&mut v, t);
            push_str_chars(&mut v, " ");
            push_str_chars(&mut v, unit);
            push_str_chars(&mut v, " used");
        },
        (None, Some(t), None) => {
            push_str_chars(&mut v, "total ");
            push_str_chars(&mut v, t);
            push_str_chars(&mut v, " ");
            push_str_chars(&mut v, unit);
        },
        (None, None, Some(u)) => {
            push_str_chars(&mut v, "used ");
            push_str_chars(&mut v, u);
            push_str_chars(&mut v, " ");
            push_str_chars(&mut v, unit);
        },
        (None, None, None) => {
            return None;
        },
    }
    let t = trim_chars(&v);
    Some(string_of(&t))
}

/// `value` followed by its unit letter and "ago" (in the interface's
/// language).
pub open spec fn compact_age_text(value: nat, unit: Seq<char>, chinese: bool) -> Seq<char> {
    decimal(value) + unit + if chinese {
        "\u{524d}"@
    } else {
        " ago"@
    }
}

/// How long ago `diff_secs` seconds is, in its largest whole unit (at
/// least one second).
pub open spec fn compact_age(diff_secs: int) -> (int, Seq<char>) {
    if diff_secs < 60 {
        (if diff_secs < 1 { 1 } else { diff_secs }, "s"@)
    } else if diff_secs < 3600 {
        (diff_secs / 60, "m"@)
    } else if diff_secs < 86_400 {
        (diff_secs / 3600, "h"@)
    } else {
        (diff_secs / 86_400, "d"@)
    }
}

pub open spec fn relative_time_compact_spec(timestamp_ms: int, now_ms: int, chinese: bool) -> Seq<char> {
    let diff = if now_ms - timestamp_ms < 0 {
        0
    } else {
        (now_ms - timestamp_ms) / 1000
    };
    compact_age_text(compact_age(diff).0 as nat, compact_age(diff).1, chinese)
}

/// The age of a quota check at `timestamp_ms`, seen at `now_ms`, such as
/// `5m ago`; a check in the future counts as one second ago.
pub fn relative_time_compact(timestamp_ms: i64, now_ms: i64, chinese: bool) -> (out: String)
    requires
        i64::MIN <= now_ms - timestamp_ms <= i64::MAX,
    ensures
        out@ == relative_time_compact_spec(timestamp_ms as int, now_ms as int, chinese),
{
    proof {
        reveal_strlit("s");
        reveal_strlit("m");
        reveal_strlit("h");
        reveal_strlit("d");
        reveal_strlit(" ago");
        reveal_strlit("\u{524d}");
    }
    let delta = now_ms - timestamp_ms;
    let diff: u64 = if delta < 0 {
        0
    } else {
        (delta / 1000) as u64
    };
    let (value, unit): (u64, &str) = if diff < 60 {
        (if diff < 1 { 1 } else { diff }, "s")
    } else if diff < 3600 {
        (diff / 60, "m")
    } else if diff < 86_400 {
        (diff / 3600, "h")
    } else {
        (diff / 86_400, "d")
    };
    let mut v = decimal_chars(value);
    push_str_chars(&mut v, unit);
    if chinese {
        push_str_chars(&mut v, "\u{524d}");
    } else {
        push_str_chars(&mut v, " ago");
    }
    string_of(&v)
}

/// Calls `SystemTime::now().duration_since(UNIX_EPOCH)`: milliseconds since
/// the Unix epoch (`Ok`), or before it (`Err`, from the error's duration).
/// It reads the clock, so nothing is stated of the value.
#[verifier::external_body]
fn clock_millis() -> Result<u128, u128> {
    match std::time::SystemTime::now().duration_since(std::time::UNIX_EPOCH) {
        Ok(since) => Ok(since.as_millis()),
        Err(before) => Err(before.duration().as_millis()),
    }
}

/// Milliseconds of `clock` (see `clock_millis`) as a signed number, held
/// to the range of `i64`.
pub open spec fn signed_millis(clock: Result<u128, u128>) -> int {
    match clock {
        Ok(ms) => if ms > i64::MAX {
            i64::MAX as int
        } else {
            ms as int
        },
        Err(ms) => if ms > i64::MAX {
            -(i64::MAX as int)
        } else {
            -(ms as int)
        },
    }
}

/// The clock as milliseconds since the Unix epoch, negative before it.
fn now_millis() -> (now: i64)
    ensures
        exists|clock: Result<u128, u128>| now == signed_millis(clock),
{
    let clock = clock_millis();
    let now: i64 = match clock {
        Ok(ms) => if ms > i64::MAX as u128 {
            i64::MAX
        } else {
            ms as i64
        },
        Err(ms) => if ms > i64::MAX as u128 {
            -i64::MAX
        } else {
            -(ms as i64)
        },
    };
    assert(now == signed_millis(clock));
    now
}

/// The age of a quota check at `timestamp_ms` as of now (see
/// `relative_time_compact`); a clock so far off that the difference
/// overflows saturates.
pub fn quota_relative_time_compact(timestamp_ms: i64, chinese: bool) -> (out: String)
    ensures
        exists|now: int| out@ == relative_time_compact_spec(timestamp_ms as int, now, chinese),
{
    let now = now_millis();
    let now_checked = match now.checked_sub(timestamp_ms) {
        Some(_) => now,
        None => if timestamp_ms < 0 {
            timestamp_ms + i64::MAX
        } else {
            timestamp_ms + i64::MIN
        },
    };
    let out = relative_time_compact(timestamp_ms, now_checked, chinese);
    assert(out@ == relative_time_compact_spec(timestamp_ms as int, now_checked as int, chinese));
    out
}

} // verus!
