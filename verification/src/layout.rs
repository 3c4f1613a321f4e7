//! Height budgeting and windowing of the bordered sections on the config pages.
use vstd::prelude::*;

use crate::text::{
    chars_eq, chars_eq_str, chars_of, extend_chars, push_repeat, repeat_char, starts_with, starts_with_chars,
    string_of,
};
use crate::width::{str_display_width, str_width};

verus! {

pub open spec fn min_int(a: int, b: int) -> int {
    if a <= b {
        a
    } else {
        b
    }
}

pub open spec fn line_count_spec(text_width: usize, width: u16) -> u16 {
    if width == 0 {
        1
    } else {
        let w: int = if text_width < 1 {
            1
        } else {
            text_width as int
        };
        ((w + width - 1) / (width as int)) as u16
    }
}

/// Rows that `text` takes when wrapped at `width` columns (at least one).
pub fn wrapped_display_line_count(text: &str, width: u16) -> (n: u16)
    ensures
        n == line_count_spec(str_display_width(text@), width),
{
    if width == 0 {
        return 1;
    }
    let w = str_width(text);
    let w = if w < 1 {
        1
    } else {
        w
    };
    let wd = width as usize;
    assert((w - 1) / (wd as int) <= w - 1) by (nonlinear_arith)
        requires
            wd > 0,
            w >= 1,
    ;
    let lines = (w - 1) / wd + 1;
    assert(lines == (w + wd - 1) / (wd as int)) by (nonlinear_arith)
        requires
            wd > 0,
            w >= 1,
            lines == (w - 1) / (wd as int) + 1,
    ;
    #[verifier::truncate]
    (lines as u16)
}

/// Rows of each line of a section: wrapped lines may take several.
pub fn section_line_heights(lines: &[String], wraps: &[bool], text_width: u16) -> (out: Vec<u16>)
    requires
        lines@.len() == wraps@.len(),
    ensures
        out@.len() == lines@.len(),
        forall|i: int| 0 <= i < lines@.len() ==> out@[i] == if wraps@[i] {
            line_count_spec(str_display_width(lines@[i]@), text_width)
        } else {
            1u16
        },
{
    let mut out: Vec<u16> = Vec::new();
    let mut i: usize = 0;
    while i < lines.len()
        invariant
            i <= lines@.len() == wraps@.len(),
            out@.len() == i,
            forall|k: int| 0 <= k < i ==> out@[k] == if wraps@[k] {
                line_count_spec(str_display_width(lines@[k]@), text_width)
            } else {
                1u16
            },
        decreases lines@.len() - i,
    {
        let h = if wraps[i] {
            wrapped_display_line_count(lines[i].as_str(), text_width)
        } else {
            1
        };
        out.push(h);
        i += 1;
    }
    out
}

/// Sum of `h[a..b]`.
pub open spec fn hsum(h: Seq<u16>, a: int, b: int) -> int
    decreases b - a,
{
    if b <= a {
        0
    } else {
        hsum(h, a, b - 1) + h[b - 1]
    }
}

proof fn lemma_hsum_split(h: Seq<u16>, a: int, b: int, c: int)
    requires
        a <= b <= c,
    ensures
        hsum(h, a, c) == hsum(h, a, b) + hsum(h, b, c),
    decreases c - b,
{
    if c > b {
        lemma_hsum_split(h, a, b, c - 1);
    }
}

proof fn lemma_hsum_nonneg(h: Seq<u16>, a: int, b: int)
    ensures
        hsum(h, a, b) >= 0,
    decreases b - a,
{
    if b > a {
        lemma_hsum_nonneg(h, a, b - 1);
    }
}

proof fn lemma_hsum_within(h: Seq<u16>, a: int, b: int, c: int, d: int)
    requires
        c <= a <= b <= d,
    ensures
        hsum(h, a, b) <= hsum(h, c, d),
{
    lemma_hsum_split(h, c, a, b);
    lemma_hsum_split(h, c, b, d);
    lemma_hsum_nonneg(h, c, a);
    lemma_hsum_nonneg(h, b, d);
}

proof fn lemma_hsum_front(h: Seq<u16>, a: int, b: int)
    requires
        a < b,
    ensures
        hsum(h, a, b) == h[a] + hsum(h, a + 1, b),
{
    lemma_hsum_split(h, a, a + 1, b);
    assert(hsum(h, a, a) == 0);
    assert(hsum(h, a, a + 1) == h[a]);
}

/// The lines of a section shown in `available_height` rows (borders
/// included), as a range `(start, end)`: all of them when they fit, else a
/// window that holds the selected line, reaching up from it as far as the
/// rows allow and then down.
pub fn section_line_window(line_heights: &[u16], available_height: u16, selected_line: Option<
    usize,
>) -> (range: (usize, usize))
    requires
        line_heights@.len() > 0 && available_height >= 3 ==> hsum(
            line_heights@,
            0,
            line_heights@.len() as int,
        ) <= u16::MAX,
    ensures
        ({
            let h = line_heights@;
            let len = h.len() as int;
            let inner = available_height - 2;
            let (start, end) = (range.0 as int, range.1 as int);
            if len == 0 || available_height < 3 {
                start == 0 && end == 0
            } else if hsum(h, 0, len) <= inner {
                start == 0 && end == len
            } else {
                let sel = match selected_line {
                    Some(s) => if s < len {
                        s as int
                    } else {
                        0
                    },
                    None => 0,
                };
                let first = min_int(h[sel] as int, inner);
                &&& 0 <= start <= sel < end <= len
                &&& first + hsum(h, start, sel) <= inner
                &&& (start == 0 || first + hsum(h, start - 1, sel) > inner)
                &&& if hsum(h, start, sel + 1) <= inner {
                    &&& hsum(h, start, end) <= inner
                    &&& (end == len || hsum(h, start, end + 1) > inner)
                } else {
                    end == sel + 1
                }
            }
        }),
{
    let ghost h = line_heights@;
    let len = line_heights.len();
    if len == 0 || available_height < 3 {
        return (0, 0);
    }
    let inner: u32 = (available_height - 2) as u32;
    let mut total: u32 = 0;
    let mut i: usize = 0;
    while i < len
        invariant
            i <= len == h.len(),
            h == line_heights@,
            total == hsum(h, 0, i as int),
            hsum(h, 0, len as int) <= u16::MAX,
        decreases len - i,
    {
        proof {
            lemma_hsum_within(h, 0, i + 1, 0, len as int);
        }
        total = total + line_heights[i] as u32;
        i += 1;
    }
    if total <= inner {
        return (0, len);
    }
    let sel = match selected_line {
        Some(s) => if s < len {
            s
        } else {
            0
        },
        None => 0,
    };
    let first: u32 = if (line_heights[sel] as u32) < inner {
        line_heights[sel] as u32
    } else {
        inner
    };
    let mut used: u32 = first;
    let mut start = sel;
    let mut stop = false;
    while start > 0 && !stop
        invariant
            h == line_heights@,
            len == h.len(),
            sel < len,
            start <= sel,
            first == min_int(h[sel as int] as int, inner as int),
            used == first + hsum(h, start as int, sel as int),
            used <= inner,
            inner <= u16::MAX,
            hsum(h, 0, len as int) <= u16::MAX,
            stop ==> start > 0 && first + hsum(h, start - 1, sel as int) > inner,
        decreases start, if stop { 0int } else { 1int },
    {
        let next = line_heights[start - 1] as u32;
        proof {
            lemma_hsum_front(h, start - 1, sel as int);
        }
        if used + next > inner {
            stop = true;
        } else {
            start -= 1;
            used = used + next;
        }
    }
    let mut end = start;
    let mut consumed: u32 = 0;
    let mut full = false;
    while end < len && !full
        invariant
            h == line_heights@,
            len == h.len(),
            start <= end <= len,
            consumed == hsum(h, start as int, end as int),
            consumed <= inner,
            inner <= u16::MAX,
            full ==> end < len && hsum(h, start as int, end + 1) > inner,
        decreases len - end, if full { 0int } else { 1int },
    {
        let next = line_heights[end] as u32;
        if consumed + next > inner {
            full = true;
        } else {
            consumed = consumed + next;
            end += 1;
        }
    }
    proof {
        if hsum(h, start as int, sel + 1) <= inner {
            if end <= sel {
                lemma_hsum_within(h, start as int, end + 1, start as int, sel + 1);
            }
        } else {
            if end > sel {
                lemma_hsum_within(h, start as int, sel + 1, start as int, end as int);
            }
        }
    }
    if end <= sel {
        end = if sel + 1 < len {
            sel + 1
        } else {
            len
        };
    }
    (start, end)
}

pub open spec fn split_heights_spec(
    available: u16,
    first_full: u16,
    second_full: u16,
    prioritize_second: bool,
) -> (u16, u16) {
    if first_full + second_full <= available {
        (first_full, second_full)
    } else {
        let first_min = min_int(first_full as int, 3);
        let second_min = min_int(second_full as int, 3);
        if prioritize_second {
            if available < first_min + second_min {
                let second = min_int(second_min, available as int);
                ((available - second) as u16, second as u16)
            } else {
                let second = min_int(second_full as int, available - first_min);
                let first = min_int(first_full as int, available - second);
                (first as u16, second as u16)
            }
        } else {
            if available < first_min + second_min {
                let first = min_int(first_min, available as int);
                (first as u16, (available - first) as u16)
            } else {
                let first = min_int(first_full as int, available - second_min);
                let second = min_int(second_full as int, available - first);
                (first as u16, second as u16)
            }
        }
    }
}

/// Rows for two stacked sections: their full heights when both fit, else at
/// least three rows each where possible, the prioritized one served first.
pub fn split_section_heights(
    available_height: u16,
    first_full_height: u16,
    second_full_height: u16,
    prioritize_second: bool,
) -> (heights: (u16, u16))
    requires
        first_full_height + second_full_height <= u16::MAX,
    ensures
        heights == split_heights_spec(
            available_height,
            first_full_height,
            second_full_height,
            prioritize_second,
        ),
        heights.0 + heights.1 <= available_height,
        heights.0 <= first_full_height,
        heights.1 <= second_full_height,
{
    if first_full_height + second_full_height <= available_height {
        return (first_full_height, second_full_height);
    }
    let first_min = if first_full_height < 3 {
        first_full_height
    } else {
        3
    };
    let second_min = if second_full_height < 3 {
        second_full_height
    } else {
        3
    };
    if prioritize_second {
        if available_height < first_min + second_min {
            let second_height = if second_min < available_height {
                second_min
            } else {
                available_height
            };
            return (available_height - second_height, second_height);
        }
        let room = available_height - first_min;
        let second_height = if second_full_height < room {
            second_full_height
        } else {
            room
        };
        let rest = available_height - second_height;
        let first_height = if first_full_height < rest {
            first_full_height
        } else {
            rest
        };
        (first_height, second_height)
    } else {
        if available_height < first_min + second_min {
            let first_height = if first_min < available_height {
                first_min
            } else {
                available_height
            };
            return (first_height, available_height - first_height);
        }
        let room = available_height - second_min;
        let first_height = if first_full_height < room {
            first_full_height
        } else {
            room
        };
        let rest = available_height - first_height;
        let second_height = if second_full_height < rest {
            second_full_height
        } else {
            rest
        };
        (first_height, second_height)
    }
}

pub open spec fn row_window_spec(row_count: nat, selected_row: Option<usize>, available: u16) -> (
    nat,
    nat,
) {
    if row_count == 0 || available < 3 {
        (0, 0)
    } else {
        let visible = (available - 2) as nat;
        if row_count <= visible {
            (0, row_count)
        } else {
            let sel: nat = match selected_row {
                Some(s) => if s < row_count {
                    s as nat
                } else {
                    0
                },
                None => 0,
            };
            let reach = if sel + 1 > visible {
                sel + 1
            } else {
                visible
            };
            let end = if reach < row_count {
                reach
            } else {
                row_count
            };
            let start = if end >= visible {
                (end - visible) as nat
            } else {
                0
            };
            (start, end)
        }
    }
}

/// The rows of the workspace summary shown in `available_height` rows
/// (borders included), keeping the selected row in view.
pub fn openclaw_workspace_visible_row_window(
    row_count: usize,
    selected_row: Option<usize>,
    available_height: u16,
) -> (range: (usize, usize))
    ensures
        range.0 as nat == row_window_spec(row_count as nat, selected_row, available_height).0,
        range.1 as nat == row_window_spec(row_count as nat, selected_row, available_height).1,
        range.0 <= range.1 <= row_count,
        available_height >= 2 ==> range.1 - range.0 <= available_height - 2,
        forall|s: usize|
            selected_row == Some(s) && s < row_count && available_height >= 3 ==> range.0 <= s
                < range.1,
{
    if row_count == 0 || available_height < 3 {
        return (0, 0);
    }
    let visible_rows = (available_height - 2) as usize;
    if row_count <= visible_rows {
        return (0, row_count);
    }
    let selected = match selected_row {
        Some(s) => if s < row_count {
            s
        } else {
            0
        },
        None => 0,
    };
    let reach = if selected + 1 > visible_rows {
        selected + 1
    } else {
        visible_rows
    };
    let end = if reach < row_count {
        reach
    } else {
        row_count
    };
    let start = end.saturating_sub(visible_rows);
    (start, end)
}

/// Gives one spare row to the preferred section if it still needs one.
pub fn openclaw_workspace_allocate_extra_line(
    prefer_daily: bool,
    extra: &mut u16,
    files_height: &mut u16,
    files_need: &mut u16,
    daily_height: &mut u16,
    daily_need: &mut u16,
)
    ensures
        ({
            let (height, need) = if prefer_daily {
                (*old(daily_height), *old(daily_need))
            } else {
                (*old(files_height), *old(files_need))
            };
            let grant = *old(extra) > 0 && need > 0;
            let new_height = if grant {
                if height < u16::MAX { (height + 1) as u16 } else { height }
            } else {
                height
            };
            let new_need = if grant { (need - 1) as u16 } else { need };
            &&& *final(extra) == if grant { (*old(extra) - 1) as u16 } else { *old(extra) }
            &&& if prefer_daily {
                &&& *final(daily_height) == new_height
                &&& *final(daily_need) == new_need
                &&& *final(files_height) == *old(files_height)
                &&& *final(files_need) == *old(files_need)
            } else {
                &&& *final(files_height) == new_height
                &&& *final(files_need) == new_need
                &&& *final(daily_height) == *old(daily_height)
                &&& *final(daily_need) == *old(daily_need)
            }
        }),
{
    if prefer_daily {
        if *extra == 0 || *daily_need == 0 {
            return;
        }
        *daily_height = daily_height.saturating_add(1);
        *daily_need = *daily_need - 1;
        *extra = *extra - 1;
    } else {
        if *extra == 0 || *files_need == 0 {
            return;
        }
        *files_height = files_height.saturating_add(1);
        *files_need = *files_need - 1;
        *extra = *extra - 1;
    }
}

/// Rows the first-served section gets when `extra` spare rows are dealt out
/// one at a time, alternately, to sections still needing `a` and `b` rows.
pub open spec fn first_share(extra: int, a: int, b: int) -> int {
    if a <= b {
        if extra <= 2 * a {
            (extra + 1) / 2
        } else {
            a
        }
    } else {
        if extra <= 2 * b {
            (extra + 1) / 2
        } else {
            min_int(a, extra - b)
        }
    }
}

/// Rows the second-served section gets in the same deal.
pub open spec fn second_share(extra: int, a: int, b: int) -> int {
    if a <= b {
        if extra <= 2 * a {
            extra / 2
        } else {
            min_int(b, extra - a)
        }
    } else {
        if extra <= 2 * b {
            extra / 2
        } else {
            b
        }
    }
}

/// Round-robin state: served alternately, first-served first, the two
/// counts stay equal until one side's need is met.
pub open spec fn fair_deal(gp: int, go: int, a: int, b: int, extra: int) -> bool {
    &&& 0 <= gp <= a
    &&& 0 <= go <= b
    &&& (gp == go || (gp < go && gp == a) || (gp > go && go == b) || (gp == go + 1 && extra == 0))
}

proof fn lemma_fair_deal_done(gp: int, go: int, a: int, b: int, e0: int, extra: int)
    requires
        fair_deal(gp, go, a, b, extra),
        extra == e0 - gp - go,
        extra >= 0,
        extra == 0 || (gp == a && go == b),
    ensures
        gp == first_share(e0, a, b),
        go == second_share(e0, a, b),
{
}

pub open spec fn sat_add(a: u16, b: u16) -> int {
    if a + b > u16::MAX {
        u16::MAX as int
    } else {
        a + b
    }
}

pub open spec fn body_heights_spec(
    available: u16,
    summary_full: u16,
    files_full: u16,
    daily_full: u16,
    prioritize_daily: bool,
) -> (int, int, int) {
    if available == 0 {
        (0, 0, 0)
    } else {
        let prioritized_min = if prioritize_daily {
            min_int(daily_full as int, 3)
        } else {
            min_int(files_full as int, 3)
        };
        let room = if available >= prioritized_min {
            available - prioritized_min
        } else {
            0
        };
        let summary = min_int(summary_full as int, room);
        let remaining = available - summary;
        if remaining == 0 {
            (summary, 0, 0)
        } else if remaining >= sat_add(files_full, daily_full) {
            (summary, files_full as int, daily_full as int)
        } else {
            let files_min = min_int(files_full as int, 3);
            let daily_min = min_int(daily_full as int, 3);
            if remaining < files_min + daily_min {
                if prioritize_daily {
                    (summary, 0, remaining)
                } else {
                    (summary, remaining, 0)
                }
            } else {
                let extra = remaining - files_min - daily_min;
                let files_need = files_full - files_min;
                let daily_need = daily_full - daily_min;
                if prioritize_daily {
                    (
                        summary,
                        files_min + second_share(extra, daily_need, files_need),
                        daily_min + first_share(extra, daily_need, files_need),
                    )
                } else {
                    (
                        summary,
                        files_min + first_share(extra, files_need, daily_need),
                        daily_min + second_share(extra, files_need, daily_need),
                    )
                }
            }
        }
    }
}

/// Deals `spare` rows one at a time, alternately, to the two lists (the
/// prioritized one first) until they reach their full heights.
fn deal_spare_rows(
    prioritize_daily: bool,
    spare: u16,
    files_min: u16,
    files_full_height: u16,
    daily_min: u16,
    daily_full_height: u16,
) -> (heights: (u16, u16))
    requires
        files_min <= files_full_height,
        daily_min <= daily_full_height,
    ensures
        prioritize_daily ==> heights.0 == files_min + second_share(
            spare as int,
            daily_full_height - daily_min,
            files_full_height - files_min,
        ) && heights.1 == daily_min + first_share(
            spare as int,
            daily_full_height - daily_min,
            files_full_height - files_min,
        ),
        !prioritize_daily ==> heights.0 == files_min + first_share(
            spare as int,
            files_full_height - files_min,
            daily_full_height - daily_min,
        ) && heights.1 == daily_min + second_share(
            spare as int,
            files_full_height - files_min,
            daily_full_height - daily_min,
        ),
{
    let mut extra = spare;
    let mut files_height = files_min;
    let mut daily_height = daily_min;
    let mut files_need = files_full_height - files_height;
    let mut daily_need = daily_full_height - daily_height;
    let ghost e0 = extra as int;
    let ghost fa = files_need as int;
    let ghost da = daily_need as int;
    while extra > 0 && (files_need > 0 || daily_need > 0)
        invariant
            files_height + files_need == files_full_height,
            daily_height + daily_need == daily_full_height,
            files_height - files_min + files_need == fa,
            daily_height - daily_min + daily_need == da,
            files_min <= files_height,
            daily_min <= daily_height,
            extra + (files_height - files_min) + (daily_height - daily_min) == e0,
            prioritize_daily ==> fair_deal(daily_height - daily_min, files_height - files_min, da, fa, extra as int),
            !prioritize_daily ==> fair_deal(files_height - files_min, daily_height - daily_min, fa, da, extra as int),
        decreases extra,
    {
        openclaw_workspace_allocate_extra_line(
            prioritize_daily,
            &mut extra,
            &mut files_height,
            &mut files_need,
            &mut daily_height,
            &mut daily_need,
        );
        openclaw_workspace_allocate_extra_line(
            !prioritize_daily,
            &mut extra,
            &mut files_height,
            &mut files_need,
            &mut daily_height,
            &mut daily_need,
        );
    }
    proof {
        if prioritize_daily {
            lemma_fair_deal_done(
                daily_height - daily_min,
                files_height - files_min,
                da,
                fa,
                e0,
                extra as int,
            );
        } else {
            lemma_fair_deal_done(
                files_height - files_min,
                daily_height - daily_min,
                fa,
                da,
                e0,
                extra as int,
            );
        }
    }
    (files_height, daily_height)
}

proof fn lemma_shares_within(extra: int, a: int, b: int)
    requires
        extra >= 0,
        a >= 0,
        b >= 0,
    ensures
        0 <= first_share(extra, a, b) <= a,
        0 <= second_share(extra, a, b) <= b,
        first_share(extra, a, b) + second_share(extra, a, b) <= extra,
{
}

proof fn lemma_body_heights_fit(
    available: u16,
    summary_full: u16,
    files_full: u16,
    daily_full: u16,
    prioritize_daily: bool,
)
    ensures
        ({
            let s = body_heights_spec(available, summary_full, files_full, daily_full, prioritize_daily);
            files_full + daily_full <= u16::MAX ==> s.0 + s.1 + s.2 <= available
        }),
{
    let files_min = min_int(files_full as int, 3);
    let daily_min = min_int(daily_full as int, 3);
    let prioritized_min = if prioritize_daily { daily_min } else { files_min };
    let room = if available >= prioritized_min { available - prioritized_min } else { 0 };
    let summary = min_int(summary_full as int, room);
    let remaining = available - summary;
    if remaining >= files_min + daily_min {
        lemma_shares_within(remaining - files_min - daily_min, files_full - files_min, daily_full - daily_min);
        lemma_shares_within(remaining - files_min - daily_min, daily_full - daily_min, files_full - files_min);
    }
}

/// Rows for the workspace page's summary, files and daily-memory sections.
/// The summary leaves room for the prioritized section's minimum; the two
/// lists get their full heights when they fit, else three rows each where
/// possible and the spare rows dealt out alternately, the prioritized list
/// first.
#[verifier::rlimit(40)]
pub fn openclaw_workspace_body_heights(
    available_height: u16,
    summary_full_height: u16,
    files_full_height: u16,
    daily_full_height: u16,
    prioritize_daily: bool,
) -> (heights: (u16, u16, u16))
    ensures
        ({
            let s = body_heights_spec(
                available_height,
                summary_full_height,
                files_full_height,
                daily_full_height,
                prioritize_daily,
            );
            heights.0 == s.0 && heights.1 == s.1 && heights.2 == s.2
        }),
        files_full_height + daily_full_height <= u16::MAX ==> heights.0 + heights.1 + heights.2
            <= available_height,
{
    proof {
        lemma_body_heights_fit(
            available_height,
            summary_full_height,
            files_full_height,
            daily_full_height,
            prioritize_daily,
        );
    }
    if available_height == 0 {
        return (0, 0, 0);
    }
    let prioritized_min = if prioritize_daily {
        if daily_full_height < 3 {
            daily_full_height
        } else {
            3
        }
    } else {
        if files_full_height < 3 {
            files_full_height
        } else {
            3
        }
    };
    let room = available_height.saturating_sub(prioritized_min);
    let summary_height = if summary_full_height < room {
        summary_full_height
    } else {
        room
    };
    let remaining = available_height - summary_height;
    if remaining == 0 {
        return (summary_height, 0, 0);
    }
    if remaining >= files_full_height.saturating_add(daily_full_height) {
        return (summary_height, files_full_height, daily_full_height);
    }
    let files_min = if files_full_height < 3 {
        files_full_height
    } else {
        3
    };
    let daily_min = if daily_full_height < 3 {
        daily_full_height
    } else {
        3
    };
    if remaining < files_min + daily_min {
        if prioritize_daily {
            return (summary_height, 0, remaining);
        }
        return (summary_height, remaining, 0);
    }
    proof {
        lemma_shares_within(
            (remaining - (files_min + daily_min)) as int,
            (files_full_height - files_min) as int,
            (daily_full_height - daily_min) as int,
        );
        lemma_shares_within(
            (remaining - (files_min + daily_min)) as int,
            (daily_full_height - daily_min) as int,
            (files_full_height - files_min) as int,
        );
    }
    let (files_height, daily_height) = deal_spare_rows(
        prioritize_daily,
        remaining - (files_min + daily_min),
        files_min,
        files_full_height,
        daily_min,
        daily_full_height,
    );
    (summary_height, files_height, daily_height)
}

/// A health warning of the OpenClaw configuration, possibly tied to a
/// config path such as `agents.defaults.model`.
#[derive(Debug, Clone, PartialEq, Eq)]
pub struct OpenClawHealthWarning {
    /// What kind of problem it is, such as `config_parse_failed`.
    pub code: String,
    pub message: String,
    pub path: Option<String>,
}

/// `s` without trailing dots.
pub open spec fn strip_dots(s: Seq<char>) -> Seq<char>
    decreases s.len(),
{
    if s.len() > 0 && s.last() == '.' {
        strip_dots(s.drop_last())
    } else {
        s
    }
}

proof fn lemma_strip_dots_cut(s: Seq<char>, k: int)
    requires
        0 <= k <= s.len(),
        forall|j: int| k <= j < s.len() ==> #[trigger] s[j] == '.',
    ensures
        strip_dots(s) == strip_dots(s.subrange(0, k)),
    decreases s.len() - k,
{
    if k < s.len() {
        assert(s.drop_last().subrange(0, k) =~= s.subrange(0, k));
        lemma_strip_dots_cut(s.drop_last(), k);
    } else {
        assert(s.subrange(0, k) =~= s);
    }
}

pub open spec fn opt_str_view(v: Option<&str>) -> Option<Seq<char>> {
    match v {
        Some(s) => Some(s@),
        None => None,
    }
}

pub open spec fn warning_matches_spec(
    path: Option<Seq<char>>,
    warning_prefix: Seq<char>,
    config_path: Option<Seq<char>>,
) -> bool {
    match path {
        None => true,
        Some(p) => config_path == Some(p) || p == strip_dots(warning_prefix) || starts_with(
            p,
            warning_prefix,
        ),
    }
}

/// Whether a warning belongs to the section whose paths start with
/// `warning_prefix` (or to the section's whole config file).
pub fn openclaw_warning_matches_section(
    warning: &OpenClawHealthWarning,
    warning_prefix: &str,
    config_path: Option<&str>,
) -> (b: bool)
    ensures
        b == warning_matches_spec(
            match warning.path {
                Some(p) => Some(p@),
                None => None,
            },
            warning_prefix@,
            opt_str_view(config_path),
        ),
{
    match &warning.path {
        None => true,
        Some(path) => {
            let p = chars_of(path.as_str());
            if let Some(cp) = config_path {
                let c = chars_of(cp);
                if chars_eq(&c, &p) {
                    return true;
                }
            }
            let prefix = chars_of(warning_prefix);
            let mut end = prefix.len();
            while end > 0 && prefix[end - 1] == '.'
                invariant
                    end <= prefix@.len(),
                    forall|j: int| end <= j < prefix@.len() ==> #[trigger] prefix@[j] == '.',
                decreases end,
            {
                end -= 1;
            }
            proof {
                lemma_strip_dots_cut(prefix@, end as int);
                if end > 0 {
                    assert(prefix@.subrange(0, end as int).last() == prefix@[end - 1]);
                }
            }
            let mut root: Vec<char> = Vec::new();
            let mut i: usize = 0;
            while i < end
                invariant
                    i <= end <= prefix@.len(),
                    root@ == prefix@.subrange(0, i as int),
                decreases end - i,
            {
                root.push(prefix[i]);
                i += 1;
                assert(root@ =~= prefix@.subrange(0, i as int));
            }
            chars_eq(&p, &root) || starts_with_chars(&p, &prefix)
        },
    }
}

/// `text` padded with spaces to `width` columns.
pub fn pad_display_width(text: &str, width: usize) -> (out: String)
    ensures
        out@ == if str_display_width(text@) >= width {
            text@
        } else {
            text@ + repeat_char(' ', (width - str_display_width(text@)) as nat)
        },
{
    let used = str_width(text);
    let mut v = chars_of(text);
    if used >= width {
        return string_of(&v);
    }
    push_repeat(&mut v, ' ', width - used);
    string_of(&v)
}

/// Rows that each of `lines` takes when wrapped at `text_width` columns.
pub open spec fn wrapped_heights(lines: Seq<String>, text_width: u16) -> Seq<u16> {
    lines.map_values(|l: String| line_count_spec(str_display_width(l@), text_width))
}

/// `a + b`, capped at `u16::MAX`.
pub open spec fn sat_add_u16(a: int, b: int) -> int {
    if a + b > u16::MAX {
        u16::MAX as int
    } else {
        a + b
    }
}

/// Height of a bordered block showing `lines` wrapped at `text_width`
/// columns: their rows plus the two borders, capped at `u16::MAX`.
pub fn section_block_height(lines: &[String], text_width: u16) -> (h: u16)
    ensures
        h == sat_add_u16(hsum(wrapped_heights(lines@, text_width), 0, lines@.len() as int), 2),
{
    let ghost hs = wrapped_heights(lines@, text_width);
    let mut total: u16 = 0;
    let mut i: usize = 0;
    while i < lines.len()
        invariant
            i <= lines@.len(),
            hs == wrapped_heights(lines@, text_width),
            total == sat_add_u16(hsum(hs, 0, i as int), 0),
        decreases lines@.len() - i,
    {
        let h = wrapped_display_line_count(lines[i].as_str(), text_width);
        proof {
            lemma_hsum_nonneg(hs, 0, i as int);
        }
        total = total.saturating_add(h);
        i += 1;
    }
    proof {
        lemma_hsum_nonneg(hs, 0, i as int);
    }
    total.saturating_add(2)
}

/// Height of the environment block: every row wraps.
pub fn openclaw_env_section_block_height(rows: &[String], text_width: u16) -> (h: u16)
    ensures
        h == sat_add_u16(hsum(wrapped_heights(rows@, text_width), 0, rows@.len() as int), 2),
{
    section_block_height(rows, text_width)
}

/// A row of a section block as its height is counted: its text, and
/// whether it wraps (else it takes one row, clipped).
#[derive(Debug, Clone, PartialEq, Eq)]
pub struct SectionRow {
    pub plain_text: String,
    pub wrap: bool,
}

pub open spec fn row_height_spec(row: SectionRow, text_width: u16) -> u16 {
    if row.wrap {
        line_count_spec(str_display_width(row.plain_text@), text_width)
    } else {
        1
    }
}

pub open spec fn row_heights(rows: Seq<SectionRow>, text_width: u16) -> Seq<u16> {
    rows.map_values(|r: SectionRow| row_height_spec(r, text_width))
}

/// Rows that one workspace row takes.
pub fn openclaw_workspace_row_height(row: &SectionRow, text_width: u16) -> (h: u16)
    ensures
        h == row_height_spec(*row, text_width),
{
    if row.wrap {
        wrapped_display_line_count(row.plain_text.as_str(), text_width)
    } else {
        1
    }
}

/// Rows that the workspace summary takes, capped at `u16::MAX`.
pub fn openclaw_workspace_summary_height(rows: &[SectionRow], text_width: u16) -> (h: u16)
    ensures
        h == sat_add_u16(hsum(row_heights(rows@, text_width), 0, rows@.len() as int), 0),
{
    let ghost hs = row_heights(rows@, text_width);
    let mut total: u16 = 0;
    let mut i: usize = 0;
    while i < rows.len()
        invariant
            i <= rows@.len(),
            hs == row_heights(rows@, text_width),
            total == sat_add_u16(hsum(hs, 0, i as int), 0),
        decreases rows@.len() - i,
    {
        let h = openclaw_workspace_row_height(&rows[i], text_width);
        proof {
            lemma_hsum_nonneg(hs, 0, i as int);
        }
        total = total.saturating_add(h);
        i += 1;
    }
    total
}

/// Height of a bordered block of `rows`: their rows plus the two borders,
/// capped at `u16::MAX`.
pub fn openclaw_workspace_section_block_height(rows: &[SectionRow], text_width: u16) -> (h: u16)
    ensures
        h == sat_add_u16(hsum(row_heights(rows@, text_width), 0, rows@.len() as int), 2),
{
    openclaw_workspace_summary_height(rows, text_width).saturating_add(2)
}

/// Height of the tools block (see `openclaw_workspace_section_block_height`).
pub fn openclaw_tools_section_block_height(rows: &[SectionRow], text_width: u16) -> (h: u16)
    ensures
        h == sat_add_u16(hsum(row_heights(rows@, text_width), 0, rows@.len() as int), 2),
{
    openclaw_workspace_summary_height(rows, text_width).saturating_add(2)
}

/// Height of the agents block (see `openclaw_workspace_section_block_height`).
pub fn openclaw_agents_section_block_height(rows: &[SectionRow], text_width: u16) -> (h: u16)
    ensures
        h == sat_add_u16(hsum(row_heights(rows@, text_width), 0, rows@.len() as int), 2),
{
    openclaw_workspace_summary_height(rows, text_width).saturating_add(2)
}

/// Visual row of a Hermes model field: the fields come in threes, each
/// group followed by a blank row.
pub fn hermes_model_visual_row_index(field_idx: usize) -> (row: usize)
    requires
        field_idx + field_idx / 3 <= usize::MAX,
    ensures
        row == field_idx + field_idx / 3,
{
    field_idx + field_idx / 3
}

pub open spec fn max_nat(a: nat, b: nat) -> nat {
    if a >= b {
        a
    } else {
        b
    }
}

/// `text` padded with spaces to `width` columns.
pub open spec fn padded(text: Seq<char>, width: int) -> Seq<char> {
    if str_display_width(text) >= width {
        text
    } else {
        text + repeat_char(' ', (width - str_display_width(text)) as nat)
    }
}

/// Four lines laid out as two rows of two columns, four columns apart;
/// `None` unless there are exactly four lines and they fit `total_width`.
pub open spec fn two_columns_spec(lines: Seq<String>, total_width: u16) -> Option<(Seq<char>, Seq<char>)> {
    if lines.len() != 4 {
        None
    } else {
        let left = max_nat(str_display_width(lines[0]@) as nat, str_display_width(lines[2]@) as nat);
        let right = max_nat(str_display_width(lines[1]@) as nat, str_display_width(lines[3]@) as nat);
        if left + 4 + right > total_width {
            None
        } else {
            Some((padded(lines[0]@, left + 4int) + lines[1]@, padded(lines[2]@, left + 4int) + lines[3]@))
        }
    }
}

/// Lays out four lines (two label/value pairs) as two rows of two columns
/// when they fit `total_width`.
pub fn compact_two_column_lines(lines: &[String], total_width: u16) -> (out: Option<Vec<String>>)
    ensures
        match two_columns_spec(lines@, total_width) {
            Some((a, b)) => out matches Some(v) && v@.len() == 2 && v@[0]@ == a && v@[1]@ == b,
            None => out is None,
        },
{
    if lines.len() != 4 {
        return None;
    }
    let w0 = str_width(lines[0].as_str());
    let w1 = str_width(lines[1].as_str());
    let w2 = str_width(lines[2].as_str());
    let w3 = str_width(lines[3].as_str());
    let left = if w0 >= w2 { w0 } else { w2 };
    let right = if w1 >= w3 { w1 } else { w3 };
    if left > total_width as usize || right > total_width as usize || left + 4 + right > total_width as usize {
        return None;
    }
    let mut first = chars_of(pad_display_width(lines[0].as_str(), left + 4).as_str());
    extend_chars(&mut first, &chars_of(lines[1].as_str()));
    let mut second = chars_of(pad_display_width(lines[2].as_str(), left + 4).as_str());
    extend_chars(&mut second, &chars_of(lines[3].as_str()));
    let mut out: Vec<String> = Vec::new();
    out.push(string_of(&first));
    out.push(string_of(&second));
    Some(out)
}

/// Whether `w` is a parse failure of the section whose paths start with
/// `section_prefix` (or of its whole config file).
pub open spec fn is_section_parse_warning(
    w: OpenClawHealthWarning,
    section_prefix: Seq<char>,
    config_path: Option<Seq<char>>,
) -> bool {
    &&& w.code@ == "config_parse_failed"@
    &&& warning_matches_spec(
        match w.path {
            Some(p) => Some(p@),
            None => None,
        },
        section_prefix,
        config_path,
    )
}

fn copy_warning(w: &OpenClawHealthWarning) -> (out: OpenClawHealthWarning)
    ensures
        out == *w,
{
    OpenClawHealthWarning {
        code: w.code.clone(),
        message: w.message.clone(),
        path: match &w.path {
            Some(p) => Some(p.clone()),
            None => None,
        },
    }
}

/// The parse-failure warnings that a section's page shows in its banner,
/// in order.
pub fn section_parse_warnings(
    warnings: &[OpenClawHealthWarning],
    section_prefix: &str,
    config_path: Option<&str>,
) -> (out: Vec<OpenClawHealthWarning>)
    ensures
        out@ == warnings@.filter(
            |w: OpenClawHealthWarning|
                is_section_parse_warning(w, section_prefix@, opt_str_view(config_path)),
        ),
{
    let ghost keep = |w: OpenClawHealthWarning|
        is_section_parse_warning(w, section_prefix@, opt_str_view(config_path));
    let mut out: Vec<OpenClawHealthWarning> = Vec::new();
    let mut i: usize = 0;
    assert(warnings@.take(0) =~= Seq::<OpenClawHealthWarning>::empty());
    while i < warnings.len()
        invariant
            i <= warnings@.len(),
            out@ == warnings@.take(i as int).filter(keep),
            keep == (|w: OpenClawHealthWarning|
                is_section_parse_warning(w, section_prefix@, opt_str_view(config_path))),
        decreases warnings@.len() - i,
    {
        let w = &warnings[i];
        proof {
            assert(warnings@.take(i + 1) =~= warnings@.take(i as int).push(warnings@[i as int]));
            warnings@.take(i as int).lemma_filter_push(warnings@[i as int], keep);
        }
        let code = chars_of(w.code.as_str());
        if chars_eq_str(&code, "config_parse_failed") && openclaw_warning_matches_section(
            w,
            section_prefix,
            config_path,
        ) {
            out.push(copy_warning(w));
        }
        i += 1;
    }
    assert(warnings@.take(warnings@.len() as int) =~= warnings@);
    out
}

} // verus!
