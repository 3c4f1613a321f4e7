//! The braille "wave" that shows recent proxy traffic.
use vstd::prelude::*;

use crate::text::{concat_all, extend_chars, chars_of, string_of};

verus! {

/// The nine glyphs of a bar chart, from empty to full in eighths.
#[derive(Debug, Clone, Copy)]
pub struct BarSet {
    pub empty: &'static str,
    pub one_eighth: &'static str,
    pub one_quarter: &'static str,
    pub three_eighths: &'static str,
    pub half: &'static str,
    pub five_eighths: &'static str,
    pub three_quarters: &'static str,
    pub seven_eighths: &'static str,
    pub full: &'static str,
}

pub open spec fn dots_spec() -> BarSet {
    BarSet {
        empty: " ",
        one_eighth: "\u{2840}",
        one_quarter: "\u{28c0}",
        three_eighths: "\u{28c4}",
        half: "\u{28e4}",
        five_eighths: "\u{28e6}",
        three_quarters: "\u{28f6}",
        seven_eighths: "\u{28f7}",
        full: "\u{28ff}",
    }
}

/// Braille bars growing upwards.
pub fn dots() -> (set: BarSet)
    ensures
        set == dots_spec(),
        set.empty@ == " "@,
        set.one_eighth@ == "\u{2840}"@,
        set.one_quarter@ == "\u{28c0}"@,
        set.three_eighths@ == "\u{28c4}"@,
        set.half@ == "\u{28e4}"@,
        set.five_eighths@ == "\u{28e6}"@,
        set.three_quarters@ == "\u{28f6}"@,
        set.seven_eighths@ == "\u{28f7}"@,
        set.full@ == "\u{28ff}"@,
{
    BarSet {
        empty: " ",
        one_eighth: "\u{2840}",
        one_quarter: "\u{28c0}",
        three_eighths: "\u{28c4}",
        half: "\u{28e4}",
        five_eighths: "\u{28e6}",
        three_quarters: "\u{28f6}",
        seven_eighths: "\u{28f7}",
        full: "\u{28ff}",
    }
}

/// Braille bars growing downwards.
pub fn rev_dots() -> (set: BarSet)
    ensures
        set.empty@ == " "@,
        set.one_eighth@ == "\u{2801}"@,
        set.one_quarter@ == "\u{2809}"@,
        set.three_eighths@ == "\u{280b}"@,
        set.half@ == "\u{281b}"@,
        set.five_eighths@ == "\u{281f}"@,
        set.three_quarters@ == "\u{283f}"@,
        set.seven_eighths@ == "\u{287f}"@,
        set.full@ == "\u{28ff}"@,
{
    BarSet {
        empty: " ",
        one_eighth: "\u{2801}",
        one_quarter: "\u{2809}",
        three_eighths: "\u{280b}",
        half: "\u{281b}",
        five_eighths: "\u{281f}",
        three_quarters: "\u{283f}",
        seven_eighths: "\u{287f}",
        full: "\u{28ff}",
    }
}

pub open spec fn bar_symbol_spec(level: u64, set: BarSet) -> Seq<char> {
    if level == 0 {
        set.empty@
    } else if level == 1 {
        set.one_eighth@
    } else if level == 2 {
        set.one_quarter@
    } else if level == 3 {
        set.three_eighths@
    } else if level == 4 {
        set.half@
    } else if level == 5 {
        set.five_eighths@
    } else if level == 6 {
        set.three_quarters@
    } else if level == 7 {
        set.seven_eighths@
    } else {
        set.full@
    }
}

/// The glyph for a fill level in eighths; eight and more is a full cell.
pub fn bar_symbol(level: u64, set: &BarSet) -> (s: &'static str)
    ensures
        s@ == bar_symbol_spec(level, *set),
{
    match level {
        0 => set.empty,
        1 => set.one_eighth,
        2 => set.one_quarter,
        3 => set.three_eighths,
        4 => set.half,
        5 => set.five_eighths,
        6 => set.three_quarters,
        7 => set.seven_eighths,
        _ => set.full,
    }
}

pub open spec fn zeros(n: nat) -> Seq<u64> {
    Seq::new(n, |_i: int| 0u64)
}

pub open spec fn recent_spec(width: nat, routed: bool, samples: Seq<u64>) -> Seq<u64> {
    if !routed {
        zeros(width)
    } else {
        let recent = if samples.len() > width {
            samples.subrange(samples.len() - width, samples.len() as int)
        } else {
            samples
        };
        zeros((width - recent.len()) as nat) + recent
    }
}

/// The last `width` samples, left-padded with zeros; all zeros when the
/// current app's traffic does not go through the proxy.
pub fn recent_samples(width: usize, current_app_routed: bool, samples: &[u64]) -> (out: Vec<u64>)
    ensures
        out@ == recent_spec(width as nat, current_app_routed, samples@),
        out@.len() == width,
{
    let mut out: Vec<u64> = Vec::new();
    if !current_app_routed {
        let mut i: usize = 0;
        while i < width
            invariant
                i <= width,
                out@ == zeros(i as nat),
            decreases width - i,
        {
            out.push(0);
            i += 1;
            assert(out@ =~= zeros(i as nat));
        }
        return out;
    }
    let start = if samples.len() > width {
        samples.len() - width
    } else {
        0
    };
    let kept = samples.len() - start;
    let pad = width - kept;
    let mut i: usize = 0;
    while i < pad
        invariant
            i <= pad,
            out@ == zeros(i as nat),
        decreases pad - i,
    {
        out.push(0);
        i += 1;
        assert(out@ =~= zeros(i as nat));
    }
    let mut k = start;
    while k < samples.len()
        invariant
            start <= k <= samples@.len(),
            out@ == zeros(pad as nat) + samples@.subrange(start as int, k as int),
        decreases samples@.len() - k,
    {
        out.push(samples[k]);
        k += 1;
        assert(out@ =~= zeros(pad as nat) + samples@.subrange(start as int, k as int));
    }
    assert(samples@.subrange(0, samples@.len() as int) =~= samples@);
    out
}

/// The largest sample, 0 for none.
pub open spec fn seq_max(s: Seq<u64>) -> u64
    decreases s.len(),
{
    if s.len() == 0 {
        0
    } else {
        let rest = seq_max(s.drop_last());
        if s.last() > rest {
            s.last()
        } else {
            rest
        }
    }
}

proof fn lemma_seq_max_bound(s: Seq<u64>, i: int)
    requires
        0 <= i < s.len(),
    ensures
        s[i] <= seq_max(s),
    decreases s.len(),
{
    if i < s.len() - 1 {
        lemma_seq_max_bound(s.drop_last(), i);
    }
}

pub open spec fn scaled_value(value: u64, height: u16, max: u64, baseline: u64) -> u64 {
    if value == 0 {
        baseline
    } else {
        let s = (value * height * 8 / (max as int)) as u64;
        if s > baseline + 1 {
            s
        } else {
            (baseline + 1) as u64
        }
    }
}

pub open spec fn scale_spec(height: u16, samples: Seq<u64>, show_idle_baseline: bool) -> Seq<u64> {
    let baseline: u64 = if show_idle_baseline { 1 } else { 0 };
    let max = seq_max(samples);
    if max == 0 {
        Seq::new(samples.len(), |_i: int| baseline)
    } else {
        samples.map_values(|v: u64| scaled_value(v, height, max, baseline))
    }
}

/// Scaling keeps the idle baseline apart from traffic: a zero sample sits
/// exactly on the baseline, a non-zero one always above it.
pub proof fn law_scaling_keeps_baseline(height: u16, samples: Seq<u64>, show_idle_baseline: bool, i: int)
    requires
        0 <= i < samples.len(),
    ensures
        ({
            let baseline: u64 = if show_idle_baseline { 1 } else { 0 };
            let scaled = scale_spec(height, samples, show_idle_baseline);
            &&& scaled.len() == samples.len()
            &&& samples[i] == 0 ==> scaled[i] == baseline
            &&& samples[i] > 0 ==> scaled[i] > baseline
        }),
{
    if samples[i] > 0 {
        lemma_seq_max_bound(samples, i);
    }
}

/// Samples scaled so that the largest fills `height` cells of eight levels;
/// a non-zero sample always shows above the idle baseline.
pub fn scale_samples(height: u16, samples: &[u64], show_idle_baseline: bool) -> (out: Vec<u64>)
    requires
        forall|i: int| 0 <= i < samples@.len() ==> samples@[i] * height * 8 <= u64::MAX,
    ensures
        out@ == scale_spec(height, samples@, show_idle_baseline),
{
    let baseline: u64 = if show_idle_baseline {
        1
    } else {
        0
    };
    let mut max: u64 = 0;
    let mut i: usize = 0;
    while i < samples.len()
        invariant
            i <= samples@.len(),
            max == seq_max(samples@.take(i as int)),
        decreases samples@.len() - i,
    {
        assert(samples@.take(i + 1).drop_last() =~= samples@.take(i as int));
        if samples[i] > max {
            max = samples[i];
        }
        i += 1;
    }
    assert(samples@.take(samples@.len() as int) =~= samples@);
    let mut out: Vec<u64> = Vec::new();
    let mut k: usize = 0;
    while k < samples.len()
        invariant
            k <= samples@.len(),
            max == seq_max(samples@),
            baseline <= 1,
            baseline == if show_idle_baseline { 1u64 } else { 0u64 },
            forall|i: int| 0 <= i < samples@.len() ==> samples@[i] * height * 8 <= u64::MAX,
            out@.len() == k,
            forall|j: int| 0 <= j < k ==> out@[j] == if max == 0 { baseline } else {
                scaled_value(samples@[j], height, max, baseline)
            },
        decreases samples@.len() - k,
    {
        let v = samples[k];
        let s = if max == 0 {
            baseline
        } else if v == 0 {
            baseline
        } else {
            proof {
                lemma_seq_max_bound(samples@, k as int);
            }
            let scaled = v * (height as u64) * 8 / max;
            if scaled > baseline + 1 {
                scaled
            } else {
                baseline + 1
            }
        };
        out.push(s);
        k += 1;
    }
    proof {
        let expect = scale_spec(height, samples@, show_idle_baseline);
        if max == 0 {
            assert(out@ =~= expect);
        } else {
            assert(out@ =~= expect);
        }
    }
    out
}

/// A sample's fill level on the `t`-th row counted from the bar's base.
pub open spec fn level_at(value: u64, t: nat) -> u64 {
    if value > 8 * t {
        (value - 8 * t) as u64
    } else {
        0
    }
}

/// One row of the wave: a glyph per sample at row `t` from the base.
pub open spec fn row_spec(scaled: Seq<u64>, t: nat, set: BarSet) -> Seq<char> {
    concat_all(scaled.map_values(|v: u64| bar_symbol_spec(level_at(v, t), set)))
}

/// Which row from the base is drawn at screen row `r`.
pub open spec fn base_offset(r: int, height: nat, reversed: bool) -> nat {
    if reversed {
        r as nat
    } else {
        (height - 1 - r) as nat
    }
}

pub open spec fn wave_spec(
    width: nat,
    height: nat,
    routed: bool,
    samples: Seq<u64>,
    set: BarSet,
    reversed: bool,
) -> Seq<Seq<char>> {
    if width == 0 || height == 0 {
        Seq::empty()
    } else {
        let scaled = scale_spec(height as u16, recent_spec(width, routed, samples), routed);
        Seq::new(height, |r: int| row_spec(scaled, base_offset(r, height, reversed), set))
    }
}

pub open spec fn string_views(rows: Seq<String>) -> Seq<Seq<char>> {
    rows.map_values(|s: String| s@)
}

proof fn lemma_level_step(v: u64, t: nat)
    ensures
        level_at(v, t + 1) == if level_at(v, t) > 8 {
            (level_at(v, t) - 8) as u64
        } else {
            0u64
        },
{
}

/// The rows of the wave, top to bottom (bottom to top when `reversed`,
/// for bars that hang down).
pub fn proxy_wave_lines(
    width: u16,
    height: u16,
    current_app_routed: bool,
    samples: &[u64],
    bar_set: &BarSet,
    reversed: bool,
) -> (rows: Vec<String>)
    requires
        forall|i: int| 0 <= i < samples@.len() ==> samples@[i] * height * 8 <= u64::MAX,
    ensures
        string_views(rows@) == wave_spec(
            width as nat,
            height as nat,
            current_app_routed,
            samples@,
            *bar_set,
            reversed,
        ),
{
    if width == 0 || height == 0 {
        let empty: Vec<String> = Vec::new();
        assert(string_views(empty@) =~= Seq::<Seq<char>>::empty());
        return empty;
    }
    let w = width as usize;
    let h = height as usize;
    let recent = recent_samples(w, current_app_routed, samples);
    proof {
        assert forall|i: int| 0 <= i < recent@.len() implies recent@[i] * height * 8 <= u64::MAX by {
            let rs = if samples@.len() > w {
                samples@.subrange(samples@.len() - w, samples@.len() as int)
            } else {
                samples@
            };
            if current_app_routed {
                let pad = w - rs.len();
                if i >= pad {
                    assert(recent@[i] == rs[i - pad]);
                    if samples@.len() > w {
                        assert(rs[i - pad] == samples@[samples@.len() - w + (i - pad)]);
                    }
                } else {
                    assert(recent@[i] == 0);
                }
            } else {
                assert(recent@[i] == 0);
            }
        }
    }
    let scaled = scale_samples(height, &recent, current_app_routed);
    let ghost sc = scaled@;
    // by_base[t] is the row `t` cells above the base.
    let mut by_base: Vec<Vec<char>> = Vec::new();
    let mut levels = scaled.clone();
    let mut t: usize = 0;
    while t < h
        invariant
            t <= h,
            levels@.len() == sc.len(),
            forall|c: int| 0 <= c < sc.len() ==> levels@[c] == level_at(sc[c], t as nat),
            by_base@.len() == t,
            forall|k: int| 0 <= k < t ==> by_base@[k]@ == row_spec(sc, k as nat, *bar_set),
        decreases h - t,
    {
        let mut row: Vec<char> = Vec::new();
        let mut c: usize = 0;
        while c < levels.len()
            invariant
                c <= levels@.len() == sc.len(),
                forall|j: int| 0 <= j < c ==> levels@[j] == level_at(sc[j], (t + 1) as nat),
                forall|j: int| c <= j < sc.len() ==> levels@[j] == level_at(sc[j], t as nat),
                row@ == concat_all(
                    sc.take(c as int).map_values(|v: u64| bar_symbol_spec(level_at(v, t as nat), *bar_set)),
                ),
            decreases levels@.len() - c,
        {
            let v = levels[c];
            let sym = bar_symbol(v, bar_set);
            let sym_chars = chars_of(sym);
            let ghost before = row@;
            extend_chars(&mut row, &sym_chars);
            proof {
                let f = |v: u64| bar_symbol_spec(level_at(v, t as nat), *bar_set);
                let m = sc.take(c + 1).map_values(f);
                assert(m.drop_last() =~= sc.take(c as int).map_values(f));
                assert(m.last() == f(sc[c as int]));
                lemma_level_step(sc[c as int], t as nat);
            }
            let next = if v > 8 {
                v - 8
            } else {
                0
            };
            levels.set(c, next);
            c += 1;
        }
        assert(sc.take(sc.len() as int) =~= sc);
        by_base.push(row);
        t += 1;
    }
    let mut rows: Vec<String> = Vec::new();
    let mut r: usize = 0;
    while r < h
        invariant
            r <= h,
            by_base@.len() == h,
            forall|k: int| 0 <= k < h ==> by_base@[k]@ == row_spec(sc, k as nat, *bar_set),
            rows@.len() == r,
            forall|k: int| 0 <= k < r ==> rows@[k]@ == row_spec(
                sc,
                base_offset(k, h as nat, reversed),
                *bar_set,
            ),
        decreases h - r,
    {
        let idx = if reversed {
            r
        } else {
            h - 1 - r
        };
        let line = string_of(by_base[idx].as_slice());
        rows.push(line);
        r += 1;
    }
    assert(string_views(rows@) =~= wave_spec(
        width as nat,
        height as nat,
        current_app_routed,
        samples@,
        *bar_set,
        reversed,
    ));
    rows
}

/// The single-row wave shown on the home page.
pub fn proxy_activity_wave(width: u16, current_app_routed: bool, samples: &[u64]) -> (s: String)
    requires
        forall|i: int| 0 <= i < samples@.len() ==> samples@[i] * 8 <= u64::MAX,
    ensures
        width == 0 ==> s@ == Seq::<char>::empty(),
        width > 0 ==> s@ == wave_spec(width as nat, 1, current_app_routed, samples@, dots_spec(), false)[0],
{
    let set = dots();
    let rows = proxy_wave_lines(width, 1, current_app_routed, samples, &set, false);
    assert(string_views(rows@).len() == rows@.len());
    if rows.len() > 0 {
        let first = &rows[0];
        assert(string_views(rows@)[0] == rows@[0]@);
        string_of(&chars_of(first.as_str()))
    } else {
        String::new()
    }
}

/// Every glyph of `set` is one character (as in the braille sets).
pub open spec fn single_char_glyphs(set: BarSet) -> bool {
    &&& set.empty@.len() == 1
    &&& set.one_eighth@.len() == 1
    &&& set.one_quarter@.len() == 1
    &&& set.three_eighths@.len() == 1
    &&& set.half@.len() == 1
    &&& set.five_eighths@.len() == 1
    &&& set.three_quarters@.len() == 1
    &&& set.seven_eighths@.len() == 1
    &&& set.full@.len() == 1
}

proof fn lemma_concat_single_chars(parts: Seq<Seq<char>>)
    requires
        forall|i: int| 0 <= i < parts.len() ==> (#[trigger] parts[i]).len() == 1,
    ensures
        concat_all(parts).len() == parts.len(),
    decreases parts.len(),
{
    if parts.len() > 0 {
        lemma_concat_single_chars(parts.drop_last());
    }
}

/// With one-character glyphs, every row of the wave is exactly `width`
/// characters wide, and there are `height` rows.
pub proof fn law_wave_rows_fill_width(
    width: nat,
    height: nat,
    routed: bool,
    samples: Seq<u64>,
    set: BarSet,
    reversed: bool,
)
    requires
        single_char_glyphs(set),
        width > 0,
        0 < height <= u16::MAX,
    ensures
        wave_spec(width, height, routed, samples, set, reversed).len() == height,
        forall|r: int| 0 <= r < height ==> (#[trigger] wave_spec(width, height, routed, samples, set, reversed)[r]).len() == width,
{
    let recent = recent_spec(width, routed, samples);
    assert(recent.len() == width);
    let scaled = scale_spec(height as u16, recent, routed);
    assert(scaled.len() == width);
    assert forall|r: int| 0 <= r < height implies (#[trigger] wave_spec(width, height, routed, samples, set, reversed)[r]).len() == width by {
        let t = base_offset(r, height, reversed);
        let parts = scaled.map_values(|v: u64| bar_symbol_spec(level_at(v, t), set));
        assert forall|i: int| 0 <= i < parts.len() implies (#[trigger] parts[i]).len() == 1 by {
            let l = level_at(scaled[i], t);
            assert(parts[i] == bar_symbol_spec(l, set));
        }
        lemma_concat_single_chars(parts);
    }
}

/// With no traffic through the proxy for the current app, the one-row wave
/// shows the idle baseline: the one-eighth glyph in every cell.
pub proof fn law_idle_wave_shows_baseline(width: nat, samples: Seq<u64>, set: BarSet)
    requires
        width > 0,
        forall|i: int| 0 <= i < samples.len() ==> samples[i] == 0,
    ensures
        wave_spec(width, 1, true, samples, set, false)[0] == concat_all(Seq::new(width, |_i: int| set.one_eighth@)),
{
    let recent = recent_spec(width, true, samples);
    assert forall|i: int| 0 <= i < recent.len() implies recent[i] == 0 by {
        let k = if samples.len() > width { width as int } else { samples.len() as int };
        if i >= width - k {
            if samples.len() > width {
                assert(recent[i] == samples[samples.len() - width + (i - (width - k))]);
            } else {
                assert(recent[i] == samples[i - (width - k)]);
            }
        }
    }
    assert(seq_max(recent) == 0) by {
        if seq_max(recent) != 0 {
            lemma_seq_max_attained(recent);
        }
    }
    let scaled = scale_spec(1, recent, true);
    assert(scaled =~= Seq::new(width, |_i: int| 1u64));
    let row = scaled.map_values(|v: u64| bar_symbol_spec(level_at(v, 0), set));
    assert(row =~= Seq::new(width, |_i: int| set.one_eighth@));
}

/// Drawing the bars hanging down gives the same rows in the opposite
/// order.
pub proof fn law_reversed_wave_is_upside_down(
    width: nat,
    height: nat,
    routed: bool,
    samples: Seq<u64>,
    set: BarSet,
)
    ensures
        wave_spec(width, height, routed, samples, set, true) == wave_spec(
            width,
            height,
            routed,
            samples,
            set,
            false,
        ).reverse(),
{
    let up = wave_spec(width, height, routed, samples, set, false);
    let down = wave_spec(width, height, routed, samples, set, true);
    if width > 0 && height > 0 {
        assert forall|r: int| 0 <= r < height implies down[r] == up.reverse()[r] by {
            assert(up.reverse()[r] == up[height - 1 - r]);
            assert(base_offset(height - 1 - r, height, false) == r);
        }
    }
    assert(down =~= up.reverse());
}

/// The glyph of sample `c` on the `t`-th row from the base.
pub open spec fn wave_glyph(width: nat, height: nat, routed: bool, samples: Seq<u64>, set: BarSet, c: int, t: nat) -> Seq<char> {
    let scaled = scale_spec(height as u16, recent_spec(width, routed, samples), routed);
    bar_symbol_spec(level_at(scaled[c], t), set)
}

/// With traffic through the proxy, the busiest of the shown samples fills
/// its column: its glyph is the full cell on every row.
pub proof fn law_peak_column_is_full(width: nat, height: nat, samples: Seq<u64>, set: BarSet, c: int)
    requires
        0 < height <= u16::MAX,
        0 <= c < width,
        recent_spec(width, true, samples)[c] > 0,
        recent_spec(width, true, samples)[c] == seq_max(recent_spec(width, true, samples)),
    ensures
        forall|t: nat| t < height ==> #[trigger] wave_glyph(width, height, true, samples, set, c, t) == set.full@,
{
    let recent = recent_spec(width, true, samples);
    let max = seq_max(recent);
    let h = height as u16;
    assert(recent.len() == width);
    let scaled = scale_spec(h, recent, true);
    let top: int = h * 8;
    assert((max * h * 8) / (max as int) == top) by (nonlinear_arith)
        requires
            max > 0,
            top == h * 8,
    ;
    assert(scaled[c] == top);
    assert forall|t: nat| t < height implies #[trigger] wave_glyph(width, height, true, samples, set, c, t) == set.full@ by {
        assert(level_at(scaled[c], t) >= 8);
    }
}

/// Without traffic through the proxy for the current app, every glyph of
/// the wave is the empty cell.
pub proof fn law_unrouted_wave_is_blank(width: nat, height: nat, samples: Seq<u64>, set: BarSet, c: int, t: nat)
    requires
        0 < height <= u16::MAX,
        0 <= c < width,
    ensures
        wave_glyph(width, height, false, samples, set, c, t) == set.empty@,
{
    let recent = recent_spec(width, false, samples);
    assert(recent == zeros(width));
    if seq_max(recent) != 0 {
        lemma_seq_max_attained(recent);
    }
    let scaled = scale_spec(height as u16, recent, false);
    assert(scaled[c] == 0);
}

proof fn lemma_seq_max_attained(s: Seq<u64>)
    requires
        seq_max(s) != 0,
    ensures
        exists|i: int| 0 <= i < s.len() && s[i] == seq_max(s),
    decreases s.len(),
{
    if s.len() > 0 && s.last() <= seq_max(s.drop_last()) {
        lemma_seq_max_attained(s.drop_last());
        let i = choose|i: int| 0 <= i < s.drop_last().len() && s.drop_last()[i] == seq_max(s.drop_last());
        assert(s[i] == seq_max(s));
    }
}

} // verus!
