//! Text and windowing logic of the sessions page.
use vstd::prelude::*;

use crate::shared::{truncate_spec, truncate_to_display_width};
use crate::text::{
    chars_of, extend_chars, is_space, join, join_chars, string_of, trim, trim_chars, views,
};

verus! {

/// A recorded agent session.
#[derive(Debug, Clone, PartialEq, Eq)]
pub struct SessionMeta {
    pub provider_id: String,
    pub session_id: String,
    pub title: Option<String>,
    pub summary: Option<String>,
    pub project_dir: Option<String>,
    pub created_at: Option<i64>,
    pub last_active_at: Option<i64>,
    pub source_path: Option<String>,
    pub resume_command: Option<String>,
}

/// One message of a session.
#[derive(Debug, Clone, PartialEq, Eq)]
pub struct SessionMessage {
    pub role: String,
    pub content: String,
    pub ts: Option<i64>,
}

/// `part` stands somewhere in `whole` as a contiguous run of characters.
pub open spec fn occurs_in(part: Seq<char>, whole: Seq<char>) -> bool {
    exists|i: int|
        0 <= i && i + part.len() <= whole.len() && #[trigger] whole.subrange(i, i + part.len())
            == part
}

/// A component of `path`: a non-empty run of its characters without `/`.
pub open spec fn is_path_component(part: Seq<char>, path: Seq<char>) -> bool {
    &&& part.len() > 0
    &&& !part.contains('/')
    &&& occurs_in(part, path)
}

/// The part of `s` after its last `/` (all of `s` when it has none).
pub open spec fn last_slash_segment(s: Seq<char>) -> Seq<char>
    decreases s.len(),
{
    if s.len() == 0 || s.last() == '/' {
        Seq::empty()
    } else {
        last_slash_segment(s.drop_last()).push(s.last())
    }
}

/// A path that every platform splits alike: only `/` separates (no `\`),
/// and nothing can read as a Windows prefix (no `:`, no leading `//`).
pub open spec fn is_plain_path(s: Seq<char>) -> bool {
    &&& !s.contains('\\')
    &&& !s.contains(':')
    &&& !(s.len() >= 2 && s[0] == '/' && s[1] == '/')
}

/// The final component of a plain path, when it is an ordinary name: not
/// empty, `.` or `..`.
pub open spec fn plain_file_name(s: Seq<char>) -> Option<Seq<char>> {
    let seg = last_slash_segment(s);
    if is_plain_path(s) && seg.len() > 0 && seg != "."@ && seg != ".."@ {
        Some(seg)
    } else {
        None
    }
}

/// Calls `std::path::Path::file_name` (then `OsStr::to_str`), documented to
/// give the final component of the path. Components are split at `/` on
/// every platform (and at `\` too on Windows), are never empty, and `.` is
/// normalized away except at the start, so a name that comes back is a
/// non-empty run of the path's characters without `/`. For a plain path
/// whose part after the last `/` is an ordinary name, that part is the final
/// component. Otherwise which component comes back, and when `None` does (a
/// path that ends in `..`, or a Windows prefix), depends on the platform and
/// is not stated.
#[verifier::external_body]
fn path_file_name(path: &str) -> (r: Option<String>)
    ensures
        r matches Some(name) ==> is_path_component(name@, path@),
        r matches Some(name) ==> (plain_file_name(path@) is Some ==> name@ == plain_file_name(
            path@,
        )->0),
        plain_file_name(path@) is Some ==> r is Some,
{
    std::path::Path::new(path).file_name().and_then(|value| value.to_str()).map(
        |value| value.to_string(),
    )
}

pub open spec fn is_path_separator(c: char) -> bool {
    c == '/' || c == '\\'
}

/// `s` without trailing `/` and `\`.
pub open spec fn strip_separators(s: Seq<char>) -> Seq<char>
    decreases s.len(),
{
    if s.len() > 0 && is_path_separator(s.last()) {
        strip_separators(s.drop_last())
    } else {
        s
    }
}

proof fn lemma_strip_separators_cut(s: Seq<char>, k: int)
    requires
        0 <= k <= s.len(),
        forall|j: int| k <= j < s.len() ==> is_path_separator(#[trigger] s[j]),
    ensures
        strip_separators(s) == strip_separators(s.subrange(0, k)),
    decreases s.len() - k,
{
    if k < s.len() {
        assert(s.drop_last().subrange(0, k) =~= s.subrange(0, k));
        lemma_strip_separators_cut(s.drop_last(), k);
    } else {
        assert(s.subrange(0, k) =~= s);
    }
}

/// The trimmed path without trailing separators.
pub fn trimmed_path(path: &str) -> (out: Vec<char>)
    ensures
        out@ == strip_separators(trim(path@)),
{
    let raw = chars_of(path);
    let t = trim_chars(&raw);
    let mut end = t.len();
    while end > 0 && (t[end - 1] == '/' || t[end - 1] == '\\')
        invariant
            end <= t@.len(),
            forall|j: int| end <= j < t@.len() ==> is_path_separator(#[trigger] t@[j]),
        decreases end,
    {
        end -= 1;
    }
    proof {
        lemma_strip_separators_cut(t@, end as int);
        if end > 0 {
            assert(t@.subrange(0, end as int).last() == t@[end - 1]);
        }
    }
    let mut out: Vec<char> = Vec::new();
    let mut i: usize = 0;
    while i < end
        invariant
            i <= end <= t@.len(),
            out@ == t@.subrange(0, i as int),
        decreases end - i,
    {
        out.push(t[i]);
        i += 1;
        assert(out@ =~= t@.subrange(0, i as int));
    }
    out
}

/// The last component of a path, ignoring surrounding blanks and trailing
/// separators; empty for a blank path.
pub fn path_basename(path: &str) -> (out: String)
    ensures
        strip_separators(trim(path@)).len() == 0 ==> out@.len() == 0,
        strip_separators(trim(path@)).len() > 0 ==> (out@ == strip_separators(trim(path@))
            || is_path_component(out@, strip_separators(trim(path@)))),
        plain_file_name(strip_separators(trim(path@))) matches Some(seg) ==> out@ == seg,
{
    let trimmed = trimmed_path(path);
    if trimmed.len() == 0 {
        return String::new();
    }
    let text = string_of(&trimmed);
    match path_file_name(text.as_str()) {
        Some(name) => name,
        None => text,
    }
}

pub open spec fn is_blank(s: Seq<char>) -> bool {
    trim(s).len() == 0
}

/// A title worth showing: present and not blank.
pub open spec fn shown_title(title: Option<String>) -> Option<Seq<char>> {
    match title {
        Some(t) => if is_blank(t@) {
            None
        } else {
            Some(t@)
        },
        None => None,
    }
}

/// The first `n` characters of `s` (all of them when shorter).
pub open spec fn prefix_chars(s: Seq<char>, n: nat) -> Seq<char> {
    if s.len() <= n {
        s
    } else {
        s.take(n as int)
    }
}

/// The title shown for a session: its title, else the basename of its
/// project directory, else the first eight characters of its id.
pub fn session_title(session: &SessionMeta) -> (out: String)
    ensures
        shown_title(session.title) is Some ==> out@ == shown_title(session.title)->0,
        shown_title(session.title) is None && session.project_dir is None ==> out@
            == prefix_chars(session.session_id@, 8),
        session.project_dir matches Some(d) ==> (shown_title(session.title) is None
            && strip_separators(trim(d@)).len() > 0 ==> (out@ == strip_separators(trim(d@))
            || is_path_component(out@, strip_separators(trim(d@))))),
        session.project_dir matches Some(d) ==> (shown_title(session.title) is None
            && plain_file_name(strip_separators(trim(d@))) is Some ==> out@ == plain_file_name(
            strip_separators(trim(d@)),
        )->0),
        session.project_dir matches Some(d) ==> (shown_title(session.title) is None
            && strip_separators(trim(d@)).len() == 0 ==> out@ == prefix_chars(
            session.session_id@,
            8,
        )),
{
    if let Some(title) = &session.title {
        let raw = chars_of(title.as_str());
        let t = trim_chars(&raw);
        if t.len() > 0 {
            return string_of(&raw);
        }
    }
    if let Some(dir) = &session.project_dir {
        let base = path_basename(dir.as_str());
        if base.as_str().unicode_len() > 0 {
            return base;
        }
    }
    let id = chars_of(session.session_id.as_str());
    let mut out: Vec<char> = Vec::new();
    let mut i: usize = 0;
    while i < id.len() && i < 8
        invariant
            i <= id@.len(),
            i <= 8,
            out@ == id@.take(i as int),
        decreases id@.len() - i,
    {
        out.push(id[i]);
        i += 1;
        assert(out@ =~= id@.take(i as int));
    }
    assert(id@.len() <= 8 ==> id@.take(i as int) =~= id@);
    string_of(&out)
}

pub open spec fn visible_rows(height: u16) -> nat {
    if height <= 1 {
        1
    } else {
        (height - 1) as nat
    }
}

pub open spec fn message_window_start_spec(total: nat, selected: nat, height: u16) -> nat {
    let rows = visible_rows(height);
    if total <= rows {
        0
    } else {
        let back = if selected >= rows / 2 {
            (selected - rows / 2) as nat
        } else {
            0
        };
        if back < total - rows {
            back
        } else {
            (total - rows) as nat
        }
    }
}

/// First message shown so that the selected one sits in the middle of the
/// `height - 1` visible rows, without scrolling past the end.
pub fn message_window_start(total: usize, selected: usize, height: u16) -> (start: usize)
    ensures
        start == message_window_start_spec(total as nat, selected as nat, height),
        total > visible_rows(height) ==> start + visible_rows(height) <= total,
{
    let rows: usize = if height <= 1 {
        1
    } else {
        (height - 1) as usize
    };
    if total <= rows {
        return 0;
    }
    let back = selected.saturating_sub(rows / 2);
    if back < total - rows {
        back
    } else {
        total - rows
    }
}

/// Position, among the listed messages, of the message numbered `selected`.
pub fn selected_message_visible_index<T>(messages: &[(usize, T)], selected: usize) -> (r: Option<
    usize,
>)
    ensures
        match r {
            Some(p) => p < messages@.len() && messages@[p as int].0 == selected && forall|j: int|
                0 <= j < p ==> messages@[j].0 != selected,
            None => forall|j: int| 0 <= j < messages@.len() ==> messages@[j].0 != selected,
        },
{
    let mut i: usize = 0;
    while i < messages.len()
        invariant
            i <= messages@.len(),
            forall|j: int| 0 <= j < i ==> messages@[j].0 != selected,
        decreases messages@.len() - i,
    {
        if messages[i].0 == selected {
            return Some(i);
        }
        i += 1;
    }
    None
}

/// The messages in the visible window around `selected`.
pub fn visible_message_window<T: Copy>(messages: &[(usize, T)], selected: usize, height: u16) -> (out:
    Vec<(usize, T)>)
    ensures
        ({
            let start = message_window_start_spec(messages@.len(), selected as nat, height);
            let end = if start + visible_rows(height) < messages@.len() {
                (start + visible_rows(height)) as int
            } else {
                messages@.len() as int
            };
            out@ == messages@.subrange(start as int, end)
        }),
{
    let rows: usize = if height <= 1 {
        1
    } else {
        (height - 1) as usize
    };
    let start = message_window_start(messages.len(), selected, height);
    let end = if start < messages.len() && rows < messages.len() - start {
        start + rows
    } else {
        messages.len()
    };
    let mut out: Vec<(usize, T)> = Vec::new();
    let mut i = start;
    while i < end
        invariant
            start <= i <= end <= messages@.len(),
            out@ == messages@.subrange(start as int, i as int),
        decreases end - i,
    {
        out.push(messages[i]);
        i += 1;
        assert(out@ =~= messages@.subrange(start as int, i as int));
    }
    out
}

/// The pieces of `s` between newlines (one piece when there is none).
pub open spec fn split_lines(s: Seq<char>) -> Seq<Seq<char>>
    decreases s.len(),
{
    if s.len() == 0 {
        seq![Seq::empty()]
    } else {
        let rest = split_lines(s.drop_last());
        if s.last() == '\n' {
            rest.push(Seq::empty())
        } else {
            rest.update(rest.len() - 1, rest.last().push(s.last()))
        }
    }
}

proof fn lemma_split_lines_nonempty(s: Seq<char>)
    ensures
        split_lines(s).len() >= 1,
    decreases s.len(),
{
    if s.len() > 0 {
        lemma_split_lines_nonempty(s.drop_last());
    }
}

/// The trimmed, non-blank lines of a message.
pub open spec fn nonblank_lines(lines: Seq<Seq<char>>) -> Seq<Seq<char>> {
    lines.map_values(|l: Seq<char>| trim(l)).filter(|l: Seq<char>| l.len() > 0)
}

pub open spec fn collapse_spec(content: Seq<char>) -> Seq<char> {
    truncate_spec(join(nonblank_lines(split_lines(content)), seq![' ']), 120)
}

/// A message on one line: its non-blank lines trimmed and joined by spaces,
/// cut to 120 columns.
pub fn collapse_message_preview(content: &str) -> (out: String)
    ensures
        out@ == collapse_spec(content@),
{
    let chars = chars_of(content);
    let mut segments: Vec<Vec<char>> = Vec::new();
    let mut current: Vec<char> = Vec::new();
    let mut i: usize = 0;
    while i < chars.len()
        invariant
            i <= chars@.len(),
            views(segments@).push(current@) == split_lines(chars@.take(i as int)),
        decreases chars@.len() - i,
    {
        let c = chars[i];
        let ghost prev = views(segments@).push(current@);
        assert(chars@.take(i + 1).drop_last() =~= chars@.take(i as int));
        if c == '\n' {
            let finished = current;
            segments.push(finished);
            current = Vec::new();
            assert(views(segments@).push(current@) =~= prev.push(Seq::empty()));
        } else {
            current.push(c);
            assert(views(segments@).push(current@) =~= prev.update(
                prev.len() - 1,
                prev.last().push(c),
            ));
        }
        i += 1;
    }
    assert(chars@.take(chars@.len() as int) =~= chars@);
    segments.push(current);
    let ghost lines = views(segments@);
    assert(lines == split_lines(chars@));
    let mut kept: Vec<Vec<char>> = Vec::new();
    let mut k: usize = 0;
    while k < segments.len()
        invariant
            k <= segments@.len(),
            lines == views(segments@),
            views(kept@) == nonblank_lines(lines.take(k as int)),
        decreases segments@.len() - k,
    {
        let t = trim_chars(segments[k].as_slice());
        proof {
            let f = |l: Seq<char>| trim(l);
            let p = |l: Seq<char>| l.len() > 0;
            assert(lines.take(k + 1).map_values(f) =~= lines.take(k as int).map_values(f).push(
                trim(lines[k as int]),
            ));
            lines.take(k as int).map_values(f).lemma_filter_push(trim(lines[k as int]), p);
        }
        if t.len() > 0 {
            kept.push(t);
        }
        k += 1;
        assert(views(kept@) =~= nonblank_lines(lines.take(k as int)));
    }
    assert(lines.take(segments@.len() as int) =~= lines);
    let mut sep: Vec<char> = Vec::new();
    sep.push(' ');
    assert(sep@ =~= seq![' ']);
    let joined = join_chars(&kept, &sep);
    let text = string_of(&joined);
    truncate_to_display_width(text.as_str(), 120)
}

/// The selected message is always inside the window of visible rows.
pub proof fn law_message_window_shows_selected(total: nat, selected: nat, height: u16)
    requires
        selected < total,
    ensures
        message_window_start_spec(total, selected, height) <= selected < message_window_start_spec(
            total,
            selected,
            height,
        ) + visible_rows(height),
{
}

/// The selection once the list shows `visible_len` rows: kept where it
/// is, moved onto the last row if that is shorter, 0 for an empty list.
pub open spec fn clamped_selection(selected: usize, visible_len: usize) -> usize {
    if visible_len == 0 {
        0
    } else if selected < visible_len {
        selected
    } else {
        (visible_len - 1) as usize
    }
}

/// How an answer of the sessions worker ended, as the sessions page took
/// it in.
#[derive(Debug, PartialEq, Eq)]
pub enum SessionOutcome {
    /// A scan finished with rows.
    Scanned,
    /// A scan failed with this error.
    ScanFailed(String),
    /// A session's messages were loaded.
    MessagesLoaded,
    MessagesFailed(String),
    /// A session was deleted.
    Deleted,
    DeleteFailed(String),
}

/// A message for the user (its wording is the interface's); failures are
/// warnings.
#[derive(Debug, PartialEq, Eq)]
pub enum SessionNotice {
    RefreshFailed(String),
    MessagesFailed(String),
    DeleteFinished,
    DeleteFailed(String),
}

/// What the sessions page does after taking in an answer.
#[derive(Debug, PartialEq, Eq)]
pub struct SessionFollowUp {
    pub selected_idx: usize,
    /// Bring the message selection back inside the loaded messages.
    pub clamp_message_selection: bool,
    pub notice: Option<SessionNotice>,
}

/// What follows an answer of the sessions worker. `accepted` is whether
/// the page took the result in (it ignores results of superseded
/// requests); `visible_len` is the number of rows shown afterwards.
pub open spec fn session_follow_up_spec(
    outcome: SessionOutcome,
    accepted: bool,
    selected: usize,
    visible_len: usize,
) -> SessionFollowUp {
    match outcome {
        SessionOutcome::Scanned => SessionFollowUp {
            selected_idx: if accepted {
                clamped_selection(selected, visible_len)
            } else {
                selected
            },
            clamp_message_selection: false,
            notice: None,
        },
        SessionOutcome::ScanFailed(e) => SessionFollowUp {
            selected_idx: selected,
            clamp_message_selection: false,
            notice: Some(SessionNotice::RefreshFailed(e)),
        },
        SessionOutcome::MessagesLoaded => SessionFollowUp {
            selected_idx: selected,
            clamp_message_selection: accepted,
            notice: None,
        },
        SessionOutcome::MessagesFailed(e) => SessionFollowUp {
            selected_idx: selected,
            clamp_message_selection: false,
            notice: Some(SessionNotice::MessagesFailed(e)),
        },
        SessionOutcome::Deleted => SessionFollowUp {
            selected_idx: if accepted {
                clamped_selection(selected, visible_len)
            } else {
                selected
            },
            clamp_message_selection: false,
            notice: if accepted {
                Some(SessionNotice::DeleteFinished)
            } else {
                None
            },
        },
        SessionOutcome::DeleteFailed(e) => SessionFollowUp {
            selected_idx: selected,
            clamp_message_selection: false,
            notice: Some(SessionNotice::DeleteFailed(e)),
        },
    }
}

fn clamp_selection(selected: usize, visible_len: usize) -> (out: usize)
    ensures
        out == clamped_selection(selected, visible_len),
{
    if visible_len == 0 {
        0
    } else if selected < visible_len {
        selected
    } else {
        visible_len - 1
    }
}

/// Decides what follows an answer of the sessions worker (see
/// `session_follow_up_spec`).
pub fn session_follow_up(
    outcome: SessionOutcome,
    accepted: bool,
    selected: usize,
    visible_len: usize,
) -> (out: SessionFollowUp)
    ensures
        out == session_follow_up_spec(outcome, accepted, selected, visible_len),
{
    match outcome {
        SessionOutcome::Scanned => SessionFollowUp {
            selected_idx: if accepted {
                clamp_selection(selected, visible_len)
            } else {
                selected
            },
            clamp_message_selection: false,
            notice: None,
        },
        SessionOutcome::ScanFailed(e) => SessionFollowUp {
            selected_idx: selected,
            clamp_message_selection: false,
            notice: Some(SessionNotice::RefreshFailed(e)),
        },
        SessionOutcome::MessagesLoaded => SessionFollowUp {
            selected_idx: selected,
            clamp_message_selection: accepted,
            notice: None,
        },
        SessionOutcome::MessagesFailed(e) => SessionFollowUp {
            selected_idx: selected,
            clamp_message_selection: false,
            notice: Some(SessionNotice::MessagesFailed(e)),
        },
        SessionOutcome::Deleted => if accepted {
            SessionFollowUp {
                selected_idx: clamp_selection(selected, visible_len),
                clamp_message_selection: false,
                notice: Some(SessionNotice::DeleteFinished),
            }
        } else {
            SessionFollowUp { selected_idx: selected, clamp_message_selection: false, notice: None }
        },
        SessionOutcome::DeleteFailed(e) => SessionFollowUp {
            selected_idx: selected,
            clamp_message_selection: false,
            notice: Some(SessionNotice::DeleteFailed(e)),
        },
    }
}

} // verus!
