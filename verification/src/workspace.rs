//! The OpenClaw workspace: which files may be read and written, and the
//! listing and search of the daily memory notes.
//!
//! A match is located by byte offsets into the note, as `str` slicing
//! takes them; previews and snippets count characters.
use vstd::prelude::*;

use crate::text::{
    chars_eq_str, chars_of, concat_all, concat_str, contains, contains_chars, ends_with,
    ends_with_chars, extend_chars, find_from, is_space, occurs_at, occurs_at_exec, string_of, trim,
    trim_chars, trim_end, trim_start,
};

verus! {

/// What `char::to_lowercase` yields for a character (Unicode case mapping;
/// one character may become several). Depends on the character alone.
pub uninterp spec fn char_lowercase(c: char) -> Seq<char>;

/// What `str::to_lowercase` returns (Unicode case mapping, with the
/// word-final sigma rule). Depends on the characters alone.
pub uninterp spec fn str_lowercase(s: Seq<char>) -> Seq<char>;

/// Calls `char::to_lowercase` and collects the characters it yields; the
/// contract only names them.
#[verifier::external_body]
fn char_to_lowercase(c: char) -> (out: Vec<char>)
    ensures
        out@ == char_lowercase(c),
{
    c.to_lowercase().collect()
}

/// Calls `str::to_lowercase`; the contract only names its result.
#[verifier::external_body]
pub(crate) fn str_to_lowercase(s: &str) -> (out: String)
    ensures
        out@ == str_lowercase(s@),
{
    s.to_lowercase()
}

/// Characters of a preview.
pub const PREVIEW_CHAR_LIMIT: usize = 120;

/// Characters of context kept on each side of a search match.
pub const SNIPPET_CONTEXT_CHARS: usize = 40;

pub open spec fn truncate_chars_spec(content: Seq<char>, limit: nat) -> Seq<char> {
    if content.len() <= limit {
        content
    } else {
        content.take(limit as int) + "..."@
    }
}

/// The first `char_limit` characters of `content`, followed by `...` when
/// something was cut.
pub fn truncate_chars(content: &str, char_limit: usize) -> (out: String)
    ensures
        out@ == truncate_chars_spec(content@, char_limit as nat),
{
    let chars = chars_of(content);
    if chars.len() <= char_limit {
        return string_of(&chars);
    }
    let mut out: Vec<char> = Vec::new();
    let mut i: usize = 0;
    while i < char_limit
        invariant
            i <= char_limit < chars@.len(),
            out@ == chars@.take(i as int),
        decreases char_limit - i,
    {
        out.push(chars[i]);
        i += 1;
        assert(out@ =~= chars@.take(i as int));
    }
    let dots = chars_of("...");
    extend_chars(&mut out, &dots);
    string_of(&out)
}

/// The preview of a note: its first 120 characters.
pub fn preview_text(content: &str) -> (out: String)
    ensures
        out@ == truncate_chars_spec(content@, 120),
{
    truncate_chars(content, PREVIEW_CHAR_LIMIT)
}

pub open spec fn snippet_spec(content: Seq<char>, match_start: nat, match_end: nat) -> Seq<char> {
    let total = content.len();
    let start = if match_start >= 40 {
        (match_start - 40) as nat
    } else {
        0
    };
    let end = if match_end + 40 < total {
        match_end + 40
    } else {
        total
    };
    let head = if start > 0 {
        "..."@
    } else {
        Seq::empty()
    };
    let tail = if end < total {
        "..."@
    } else {
        Seq::empty()
    };
    head + content.subrange(start as int, end as int) + tail
}

/// A snippet shows the whole match: the matched characters appear in it,
/// in one piece.
pub proof fn law_snippet_shows_match(content: Seq<char>, match_start: nat, match_end: nat)
    requires
        match_start <= match_end <= content.len(),
    ensures
        exists|k: int|
            0 <= k && k + (match_end - match_start) <= snippet_spec(content, match_start, match_end).len()
                && #[trigger] snippet_spec(content, match_start, match_end).subrange(k, k + (match_end - match_start))
                == content.subrange(match_start as int, match_end as int),
{
    reveal_strlit("...");
    let start: int = if match_start >= 40 { match_start - 40 } else { 0 };
    let head_len: int = if start > 0 { 3 } else { 0 };
    let snip = snippet_spec(content, match_start, match_end);
    let k = head_len + (match_start - start);
    assert(snip.subrange(k, k + (match_end - match_start)) =~= content.subrange(
        match_start as int,
        match_end as int,
    ));
}

/// The text around characters `match_start..match_end` of `chars`, with 40
/// characters of context on each side and `...` where the text goes on.
fn snippet_around_chars(chars: &Vec<char>, match_start: usize, match_end: usize) -> (out: String)
    requires
        match_start <= match_end <= chars@.len(),
    ensures
        out@ == snippet_spec(chars@, match_start as nat, match_end as nat),
{
    let total = chars.len();
    let start = match_start.saturating_sub(SNIPPET_CONTEXT_CHARS);
    let end = if total >= SNIPPET_CONTEXT_CHARS && match_end < total - SNIPPET_CONTEXT_CHARS {
        match_end + SNIPPET_CONTEXT_CHARS
    } else {
        total
    };
    let mut out: Vec<char> = Vec::new();
    if start > 0 {
        extend_chars(&mut out, &chars_of("..."));
    }
    let ghost head = out@;
    let mut i = start;
    while i < end
        invariant
            start <= i <= end <= chars@.len(),
            out@ == head + chars@.subrange(start as int, i as int),
        decreases end - i,
    {
        out.push(chars[i]);
        i += 1;
        assert(out@ =~= head + chars@.subrange(start as int, i as int));
    }
    if end < total {
        extend_chars(&mut out, &chars_of("..."));
    }
    assert(out@ =~= snippet_spec(chars@, match_start as nat, match_end as nat));
    string_of(&out)
}

/// The text around a match (bytes `match_start..match_end` of `content`),
/// with 40 characters of context on each side and `...` where the note goes
/// on.
pub fn snippet_text(content: &str, match_start: usize, match_end: usize) -> (out: String)
    requires
        is_char_boundary_of(content@, match_start as int),
        is_char_boundary_of(content@, match_end as int),
        char_index_at_byte(content@, match_start as int) <= char_index_at_byte(
            content@,
            match_end as int,
        ),
    ensures
        out@ == snippet_spec(
            content@,
            char_index_at_byte(content@, match_start as int) as nat,
            char_index_at_byte(content@, match_end as int) as nat,
        ),
{
    let chars = chars_of(content);
    let start = char_index_for_byte(&chars, match_start);
    let end = char_index_for_byte(&chars, match_end);
    snippet_around_chars(&chars, start, end)
}

/// Bytes that the UTF-8 encoding of the first `k` characters of `s` takes:
/// the byte offset at which character `k` starts.
pub open spec fn byte_offset(s: Seq<char>, k: int) -> int {
    vstd::utf8::encode_utf8(s.take(k)).len() as int
}

/// The character position that starts at byte offset `b` of `s`.
pub open spec fn char_index_at_byte(s: Seq<char>, b: int) -> int {
    choose|k: int| 0 <= k <= s.len() && byte_offset(s, k) == b
}

/// Whether byte offset `b` falls between two characters of `s`.
pub open spec fn is_char_boundary_of(s: Seq<char>, b: int) -> bool {
    exists|k: int| 0 <= k <= s.len() && byte_offset(s, k) == b
}

/// Bytes of the UTF-8 encoding of `c` (`char::len_utf8`).
fn char_utf8_len(c: char) -> (n: usize)
    ensures
        n == vstd::utf8::encode_scalar(c as u32).len(),
        1 <= n <= 4,
{
    proof {
        vstd::utf8::char_is_scalar(c);
    }
    let u = c as u32;
    if u <= 0x7F {
        1
    } else if u <= 0x7FF {
        2
    } else if u <= 0xFFFF {
        3
    } else {
        4
    }
}

proof fn lemma_encode_push(a: Seq<char>, c: char)
    ensures
        vstd::utf8::encode_utf8(a.push(c)).len() == vstd::utf8::encode_utf8(a).len()
            + vstd::utf8::encode_scalar(c as u32).len(),
    decreases a.len(),
{
    let t = a.push(c);
    assert(t[0] == if a.len() == 0 { c } else { a[0] });
    assert(vstd::utf8::encode_utf8(t) == vstd::utf8::encode_scalar(t[0] as u32)
        + vstd::utf8::encode_utf8(t.drop_first()));
    if a.len() == 0 {
        assert(t.drop_first() =~= Seq::<char>::empty());
        assert(vstd::utf8::encode_utf8(t.drop_first()).len() == 0);
        assert(vstd::utf8::encode_utf8(a).len() == 0);
    } else {
        assert(t.drop_first() =~= a.drop_first().push(c));
        lemma_encode_push(a.drop_first(), c);
        assert(vstd::utf8::encode_utf8(a) == vstd::utf8::encode_scalar(a[0] as u32)
            + vstd::utf8::encode_utf8(a.drop_first()));
    }
}

proof fn lemma_byte_offset_step(s: Seq<char>, k: int)
    requires
        0 <= k < s.len(),
    ensures
        byte_offset(s, k + 1) == byte_offset(s, k) + vstd::utf8::encode_scalar(s[k] as u32).len(),
        byte_offset(s, k + 1) > byte_offset(s, k),
{
    assert(s.take(k + 1) =~= s.take(k).push(s[k]));
    lemma_encode_push(s.take(k), s[k]);
    vstd::utf8::char_is_scalar(s[k]);
}

/// Byte offsets grow by at least one with each character.
proof fn lemma_byte_offset_mono(s: Seq<char>, i: int, j: int)
    requires
        0 <= i <= j <= s.len(),
    ensures
        byte_offset(s, i) + (j - i) <= byte_offset(s, j),
    decreases j - i,
{
    if i < j {
        lemma_byte_offset_mono(s, i, j - 1);
        lemma_byte_offset_step(s, j - 1);
    }
}

proof fn lemma_char_index_at_byte(s: Seq<char>, k: int)
    requires
        0 <= k <= s.len(),
    ensures
        is_char_boundary_of(s, byte_offset(s, k)),
        char_index_at_byte(s, byte_offset(s, k)) == k,
{
    let b = byte_offset(s, k);
    assert(0 <= k <= s.len() && byte_offset(s, k) == b);
    let c = char_index_at_byte(s, b);
    if c < k {
        lemma_byte_offset_mono(s, c, k);
    } else if k < c {
        lemma_byte_offset_mono(s, k, c);
    }
}

/// The byte offset at which character `k` of `chars` starts.
fn byte_offset_of(chars: &Vec<char>, k: usize) -> (b: usize)
    requires
        k <= chars@.len(),
        vstd::utf8::encode_utf8(chars@).len() <= usize::MAX,
    ensures
        b == byte_offset(chars@, k as int),
{
    let mut b: usize = 0;
    let mut i: usize = 0;
    assert(chars@.take(0) =~= Seq::<char>::empty());
    assert(chars@.take(chars@.len() as int) =~= chars@);
    while i < k
        invariant
            i <= k <= chars@.len(),
            b == byte_offset(chars@, i as int),
            vstd::utf8::encode_utf8(chars@).len() <= usize::MAX,
            chars@.take(chars@.len() as int) == chars@,
        decreases k - i,
    {
        proof {
            lemma_byte_offset_step(chars@, i as int);
            lemma_byte_offset_mono(chars@, i + 1, chars@.len() as int);
        }
        b = b + char_utf8_len(chars[i]);
        i += 1;
    }
    b
}

/// The character position that starts at byte offset `b` of `chars`.
fn char_index_for_byte(chars: &Vec<char>, b: usize) -> (k: usize)
    requires
        is_char_boundary_of(chars@, b as int),
    ensures
        k == char_index_at_byte(chars@, b as int),
{
    let ghost w = choose|k: int| 0 <= k <= chars@.len() && byte_offset(chars@, k) == b;
    let mut off: usize = 0;
    let mut i: usize = 0;
    assert(chars@.take(0) =~= Seq::<char>::empty());
    while off < b
        invariant
            0 <= w <= chars@.len(),
            byte_offset(chars@, w) == b,
            i <= w,
            off == byte_offset(chars@, i as int),
        decreases w - i,
    {
        proof {
            if i == w {
                assert(false);
            }
            lemma_byte_offset_step(chars@, i as int);
            lemma_byte_offset_mono(chars@, i + 1, w);
        }
        let n = char_utf8_len(chars[i]);
        off = off + n;
        assert(i < chars.len());
        i = i + 1;
    }
    proof {
        if (i as int) < w {
            lemma_byte_offset_mono(chars@, i as int + 1, w);
            lemma_byte_offset_step(chars@, i as int);
        }
        lemma_char_index_at_byte(chars@, w);
    }
    i
}

/// The lower-cased text: each character replaced by its lower-case mapping.
pub open spec fn lowered(content: Seq<char>) -> Seq<char> {
    concat_all(content.map_values(|c: char| char_lowercase(c)))
}

/// The character of `content` that produced position `k` of `lowered(content)`.
pub open spec fn source_index(content: Seq<char>, k: int) -> int
    decreases content.len(),
{
    if content.len() == 0 {
        0
    } else if k >= lowered(content.drop_last()).len() {
        content.len() - 1
    } else {
        source_index(content.drop_last(), k)
    }
}

proof fn lemma_lowered_push(content: Seq<char>, i: int)
    requires
        0 <= i < content.len(),
    ensures
        lowered(content.take(i + 1)) == lowered(content.take(i)) + char_lowercase(content[i]),
{
    let f = |c: char| char_lowercase(c);
    assert(content.take(i + 1).map_values(f).drop_last() =~= content.take(i).map_values(f));
}

/// The lower-cased text with, for each of its characters, the position of
/// the character it came from and the position just after it.
pub fn lowercase_with_char_map(content: &[char]) -> (out: (Vec<char>, Vec<usize>, Vec<usize>))
    ensures
        out.0@ == lowered(content@),
        out.1@.len() == out.0@.len(),
        out.2@.len() == out.0@.len(),
        forall|k: int|
            0 <= k < out.0@.len() ==> out.1@[k] == source_index(content@, k) && out.2@[k]
                == source_index(content@, k) + 1,
{
    let mut low: Vec<char> = Vec::new();
    let mut starts: Vec<usize> = Vec::new();
    let mut ends: Vec<usize> = Vec::new();
    let mut i: usize = 0;
    assert(lowered(content@.take(0)) =~= Seq::<char>::empty());
    while i < content.len()
        invariant
            i <= content@.len(),
            low@ == lowered(content@.take(i as int)),
            starts@.len() == low@.len(),
            ends@.len() == low@.len(),
            forall|k: int|
                0 <= k < low@.len() ==> starts@[k] == source_index(content@.take(i as int), k)
                    && ends@[k] == source_index(content@.take(i as int), k) + 1,
        decreases content@.len() - i,
    {
        let lower = char_to_lowercase(content[i]);
        let ghost before = low@.len();
        proof {
            lemma_lowered_push(content@, i as int);
            assert(content@.take(i + 1).drop_last() =~= content@.take(i as int));
        }
        let mut j: usize = 0;
        while j < lower.len()
            invariant
                i < content.len(),
                j <= lower@.len(),
                before == lowered(content@.take(i as int)).len(),
                low@ == lowered(content@.take(i as int)) + lower@.take(j as int),
                starts@.len() == low@.len(),
                ends@.len() == low@.len(),
                forall|k: int|
                    0 <= k < before ==> starts@[k] == source_index(content@.take(i as int), k)
                        && ends@[k] == source_index(content@.take(i as int), k) + 1,
                forall|k: int| before <= k < low@.len() ==> starts@[k] == i && ends@[k] == i + 1,
            decreases lower@.len() - j,
        {
            low.push(lower[j]);
            starts.push(i);
            ends.push(i + 1);
            j += 1;
            assert(low@ =~= lowered(content@.take(i as int)) + lower@.take(j as int));
        }
        assert(lower@.take(lower@.len() as int) =~= lower@);
        proof {
            assert forall|k: int| 0 <= k < low@.len() implies starts@[k] == source_index(
                content@.take(i + 1),
                k,
            ) && ends@[k] == source_index(content@.take(i + 1), k) + 1 by {
                let t = content@.take(i + 1);
                assert(t.drop_last() =~= content@.take(i as int));
                assert(t.len() == i + 1);
            }
        }
        i += 1;
    }
    assert(content@.take(content@.len() as int) =~= content@);
    (low, starts, ends)
}

/// Non-overlapping occurrences of `n` in `s` at or after `p`, taken from
/// the left (what `str::match_indices` finds).
pub open spec fn count_from(s: Seq<char>, n: Seq<char>, p: int) -> nat
    decreases s.len() + 1 - p,
{
    if n.len() == 0 || p < 0 || p + n.len() > s.len() {
        0
    } else if occurs_at(s, n, p) {
        1 + count_from(s, n, p + n.len())
    } else {
        count_from(s, n, p + 1)
    }
}

pub open spec fn count_matches_spec(content: Seq<char>, query: Seq<char>) -> nat {
    let q = str_lowercase(query);
    if q.len() == 0 {
        0
    } else {
        count_from(lowered(content), q, 0)
    }
}

/// How many times `query` occurs in `content`, ignoring case.
pub fn count_case_insensitive_matches(content: &str, query: &str) -> (n: usize)
    ensures
        n == count_matches_spec(content@, query@),
{
    let q_string = str_to_lowercase(query);
    let q = chars_of(q_string.as_str());
    if q.len() == 0 {
        return 0;
    }
    let chars = chars_of(content);
    let (low, _starts, _ends) = lowercase_with_char_map(&chars);
    count_nonoverlapping(&low, &q)
}

/// How many times the lower-cased query `q` occurs, without overlaps from
/// the left, in the lower-cased text `low`; none for an empty query.
pub fn count_nonoverlapping(low: &Vec<char>, q: &Vec<char>) -> (n: usize)
    ensures
        n == count_from(low@, q@, 0),
{
    if q.len() == 0 {
        return 0;
    }
    let mut count: usize = 0;
    let mut i: usize = 0;
    while i <= low.len() && q.len() <= low.len() - i
        invariant
            q@.len() > 0,
            count + count_from(low@, q@, i as int) == count_from(low@, q@, 0),
            count <= i,
        decreases low@.len() + 1 - i,
    {
        if occurs_at_exec(&low, &q, i) {
            count += 1;
            i += q.len();
        } else {
            i += 1;
        }
    }
    count
}

/// Where the lower-cased query `q` first occurs in the lower-cased text
/// `low`.
pub fn first_match_in_lowered(low: &Vec<char>, q: &Vec<char>) -> (r: Option<usize>)
    ensures
        match r {
            Some(i) => crate::json_lines::first_match(low@, q@) == Some(i as int),
            None => crate::json_lines::first_match(low@, q@) is None,
        },
{
    match find_from(low, q, 0) {
        Some(ls) => {
            proof {
                assert(crate::json_lines::is_first_match(low@, q@, ls as int));
                let c = choose|i: int| crate::json_lines::is_first_match(low@, q@, i);
                crate::json_lines::lemma_first_match_unique(low@, q@, c, ls as int);
            }
            Some(ls)
        },
        None => {
            assert(!exists|i: int| crate::json_lines::is_first_match(low@, q@, i));
            None
        },
    }
}

pub open spec fn first_range_spec(content: Seq<char>, query: Seq<char>) -> Option<(int, int)> {
    let q = str_lowercase(query);
    let low = lowered(content);
    if q.len() == 0 {
        None
    } else {
        match crate::json_lines::first_match(low, q) {
            Some(ls) => Some((source_index(content, ls), source_index(content, ls + q.len() - 1) + 1)),
            None => None,
        }
    }
}

/// The first case-insensitive match as a range of byte offsets into
/// `content`: from the start of the character where it begins to the end
/// of the character where it ends.
pub open spec fn first_byte_range_spec(content: Seq<char>, query: Seq<char>) -> Option<(int, int)> {
    match first_range_spec(content, query) {
        Some((s, e)) => Some((byte_offset(content, s), byte_offset(content, e))),
        None => None,
    }
}

/// Byte range, in `content`, of the first case-insensitive match of
/// `query`.
pub fn first_case_insensitive_match_range(content: &str, query: &str) -> (r: Option<(usize, usize)>)
    ensures
        match r {
            Some((s, e)) => first_byte_range_spec(content@, query@) == Some((s as int, e as int)),
            None => first_byte_range_spec(content@, query@) is None,
        },
{
    let q_string = str_to_lowercase(query);
    let q = chars_of(q_string.as_str());
    if q.len() == 0 {
        return None;
    }
    let chars = chars_of(content);
    let (low, starts, ends) = lowercase_with_char_map(&chars);
    match first_match_in_lowered(&low, &q) {
        Some(ls) => {
            proof {
                assert(occurs_at(low@, q@, ls as int));
            }
            let le = ls + q.len() - 1;
            proof {
                lemma_source_index_bounds(content@, ls as int, le as int);
            }
            let bytes_len = content.as_bytes().len();
            assert(chars@ == content@);
            let s = byte_offset_of(&chars, starts[ls]);
            let e = byte_offset_of(&chars, ends[le]);
            Some((s, e))
        },
        None => None,
    }
}


proof fn lemma_source_index_bounds(content: Seq<char>, k1: int, k2: int)
    requires
        0 <= k1 <= k2 < lowered(content).len(),
    ensures
        0 <= source_index(content, k1) <= source_index(content, k2) < content.len(),
    decreases content.len(),
{
    if content.len() > 0 {
        let front = content.drop_last();
        lemma_lowered_push(content, content.len() - 1);
        assert(content.take(content.len() - 1) =~= front);
        assert(content.take(content.len() as int) =~= content);
        if k2 < lowered(front).len() {
            lemma_source_index_bounds(front, k1, k2);
        } else if k1 < lowered(front).len() {
            lemma_source_index_bounds(front, k1, k1);
        }
    } else {
        assert(lowered(content) =~= Seq::<char>::empty());
    }
}

/// The files of the workspace root that may be read and written.
pub open spec fn allowed_workspace_file(name: Seq<char>) -> bool {
    ||| name == "AGENTS.md"@
    ||| name == "SOUL.md"@
    ||| name == "USER.md"@
    ||| name == "IDENTITY.md"@
    ||| name == "TOOLS.md"@
    ||| name == "MEMORY.md"@
    ||| name == "HEARTBEAT.md"@
    ||| name == "BOOTSTRAP.md"@
    ||| name == "BOOT.md"@
}

/// Accepts only the fixed set of workspace files.
pub fn validate_workspace_filename(filename: &str) -> (r: Result<(), String>)
    ensures
        r is Ok <==> allowed_workspace_file(filename@),
        r matches Err(msg) ==> msg@ == "Invalid workspace filename: "@ + filename@,
{
    let f = chars_of(filename);
    if chars_eq_str(&f, "AGENTS.md") || chars_eq_str(&f, "SOUL.md") || chars_eq_str(&f, "USER.md")
        || chars_eq_str(&f, "IDENTITY.md") || chars_eq_str(&f, "TOOLS.md") || chars_eq_str(
        &f,
        "MEMORY.md",
    ) || chars_eq_str(&f, "HEARTBEAT.md") || chars_eq_str(&f, "BOOTSTRAP.md") || chars_eq_str(
        &f,
        "BOOT.md",
    ) {
        Ok(())
    } else {
        Err(concat_str("Invalid workspace filename: ", filename))
    }
}

/// Whether `regex::Regex::new` accepts `pattern` (valid regex syntax, within
/// the crate's default size limits). Depends on the pattern alone.
pub uninterp spec fn regex_compiles(pattern: Seq<char>) -> bool;

/// Whether `Regex::is_match` of the regex built from `pattern` finds a match
/// in `text`. Depends on the pattern and the text alone.
pub uninterp spec fn regex_matches(pattern: Seq<char>, text: Seq<char>) -> bool;

/// Calls `regex::Regex::new(pattern)` and, when it succeeds,
/// `Regex::is_match(text)`; `None` when the pattern is refused. The contract
/// only names the answers.
#[verifier::external_body]
fn regex_is_match(pattern: &str, text: &str) -> (r: Option<bool>)
    ensures
        r is Some <==> regex_compiles(pattern@),
        r matches Some(b) ==> b == regex_matches(pattern@, text@),
{
    match regex::Regex::new(pattern) {
        Ok(re) => Some(re.is_match(text)),
        Err(_) => None,
    }
}

/// The pattern of daily note names: a date and `.md` (`\d` being any
/// Unicode decimal digit).
pub open spec fn daily_memory_name_pattern() -> Seq<char> {
    "^\\d{4}-\\d{2}-\\d{2}\\.md$"@
}

/// Whether a name is a daily note name: the pattern compiles and matches it.
pub open spec fn daily_memory_name_matches(name: Seq<char>) -> bool {
    regex_compiles(daily_memory_name_pattern()) && regex_matches(daily_memory_name_pattern(), name)
}

/// Accepts only daily note names such as `2025-01-31.md`.
pub fn validate_daily_memory_filename(filename: &str) -> (r: Result<(), String>)
    ensures
        r is Ok <==> daily_memory_name_matches(filename@),
        r matches Err(msg) ==> msg@ == "Invalid daily memory filename: "@ + filename@,
{
    let matched = match regex_is_match("^\\d{4}-\\d{2}-\\d{2}\\.md$", filename) {
        Some(b) => b,
        None => false,
    };
    if matched {
        Ok(())
    } else {
        Err(concat_str("Invalid daily memory filename: ", filename))
    }
}

/// A file name without its (repeated) `.md` suffix.
pub open spec fn strip_md(s: Seq<char>) -> Seq<char>
    decreases s.len(),
{
    if ends_with(s, ".md"@) && ".md"@.len() > 0 {
        strip_md(s.take(s.len() - ".md"@.len()))
    } else {
        s
    }
}

/// The date of a daily note: its name without `.md`.
pub fn daily_memory_date(filename: &str) -> (date: String)
    ensures
        date@ == strip_md(filename@),
{
    proof {
        reveal_strlit(".md");
    }
    let mut cur = chars_of(filename);
    let suffix = chars_of(".md");
    while ends_with_chars(&cur, &suffix)
        invariant
            strip_md(cur@) == strip_md(filename@),
            suffix@ == ".md"@,
            suffix@.len() == 3,
        decreases cur@.len(),
    {
        let keep = cur.len() - 3;
        let mut next: Vec<char> = Vec::new();
        let mut i: usize = 0;
        while i < keep
            invariant
                i <= keep <= cur@.len(),
                next@ == cur@.take(i as int),
            decreases keep - i,
        {
            next.push(cur[i]);
            i += 1;
            assert(next@ =~= cur@.take(i as int));
        }
        cur = next;
    }
    string_of(&cur)
}

/// A daily note as read from disk.
#[derive(Debug, Clone, PartialEq, Eq)]
pub struct DailyMemoryEntry {
    pub filename: String,
    /// `None` when the file could not be read as UTF-8 text.
    pub content: Option<String>,
    pub size_bytes: u64,
    pub modified_at: u64,
}

/// A daily note in the listing.
#[derive(Debug, Clone, PartialEq, Eq)]
pub struct DailyMemoryFileInfo {
    pub filename: String,
    pub date: String,
    pub size_bytes: u64,
    pub modified_at: u64,
    pub preview: String,
}

/// A daily note that matches a search.
#[derive(Debug, Clone, PartialEq, Eq)]
pub struct DailyMemorySearchResult {
    pub filename: String,
    pub date: String,
    pub size_bytes: u64,
    pub modified_at: u64,
    pub snippet: String,
    pub match_count: usize,
}

/// `a` sorts before `b` as strings do (by code point, a prefix first).
pub open spec fn str_less(a: Seq<char>, b: Seq<char>) -> bool
    decreases a.len(),
{
    if a.len() == 0 {
        b.len() > 0
    } else if b.len() == 0 {
        false
    } else if a[0] != b[0] {
        (a[0] as u32) < (b[0] as u32)
    } else {
        str_less(a.drop_first(), b.drop_first())
    }
}

/// Whether `a` sorts before `b`.
pub fn str_less_exec(a: &[char], b: &[char]) -> (r: bool)
    ensures
        r == str_less(a@, b@),
{
    let mut i: usize = 0;
    assert(a@.skip(0) =~= a@ && b@.skip(0) =~= b@);
    while i < a.len() && i < b.len() && a[i] == b[i]
        invariant
            i <= a@.len(),
            i <= b@.len(),
            str_less(a@, b@) == str_less(a@.skip(i as int), b@.skip(i as int)),
        decreases a@.len() - i,
    {
        assert(a@.skip(i as int).drop_first() =~= a@.skip(i + 1));
        assert(b@.skip(i as int).drop_first() =~= b@.skip(i + 1));
        i += 1;
    }
    if i == a.len() {
        i < b.len()
    } else if i == b.len() {
        false
    } else {
        assert(a@.skip(i as int)[0] == a@[i as int]);
        assert(b@.skip(i as int)[0] == b@[i as int]);
        (a[i] as u32) < (b[i] as u32)
    }
}

/// `x` placed into the newest-first list `s` after every entry whose name
/// does not sort before its own.
pub open spec fn insert_desc(s: Seq<DailyMemoryEntry>, x: DailyMemoryEntry) -> Seq<DailyMemoryEntry>
    decreases s.len(),
{
    if s.len() == 0 {
        seq![x]
    } else if !str_less(s.last().filename@, x.filename@) {
        s.push(x)
    } else {
        insert_desc(s.drop_last(), x).push(s.last())
    }
}

/// Entries ordered by file name, descending; entries with equal names keep
/// their order.
pub open spec fn sort_desc(s: Seq<DailyMemoryEntry>) -> Seq<DailyMemoryEntry>
    decreases s.len(),
{
    if s.len() == 0 {
        Seq::empty()
    } else {
        insert_desc(sort_desc(s.drop_last()), s.last())
    }
}

proof fn lemma_insert_desc_at(s: Seq<DailyMemoryEntry>, x: DailyMemoryEntry, p: int)
    requires
        0 <= p <= s.len(),
        forall|k: int| p <= k < s.len() ==> str_less(#[trigger] s[k].filename@, x.filename@),
        p == 0 || !str_less(s[p - 1].filename@, x.filename@),
    ensures
        insert_desc(s, x) == s.insert(p, x),
    decreases s.len() - p,
{
    if p == s.len() {
        if s.len() == 0 {
            assert(s.insert(p, x) =~= seq![x]);
        } else {
            assert(s.insert(p, x) =~= s.push(x));
        }
    } else {
        assert(str_less(s[s.len() - 1].filename@, x.filename@));
        lemma_insert_desc_at(s.drop_last(), x, p);
        assert(s.drop_last().insert(p, x).push(s.last()) =~= s.insert(p, x));
    }
}

/// Daily notes, newest (greatest name) first.
pub fn sort_entries_desc(entries: Vec<DailyMemoryEntry>) -> (out: Vec<DailyMemoryEntry>)
    ensures
        out@ == sort_desc(entries@),
{
    let mut out: Vec<DailyMemoryEntry> = Vec::new();
    let mut rest = entries;
    let ghost all = rest@;
    // Reverse the entries so that popping yields them front to back and
    // equal names keep their order.
    let mut items: Vec<DailyMemoryEntry> = Vec::new();
    while rest.len() > 0
        invariant
            rest@.len() + items@.len() == all.len(),
            forall|k: int| 0 <= k < items@.len() ==> items@[k] == all[all.len() - 1 - k],
            rest@ == all.take(rest@.len() as int),
        decreases rest@.len(),
    {
        let x = rest.pop().unwrap();
        items.push(x);
        assert(rest@ =~= all.take(rest@.len() as int));
    }
    while items.len() > 0
        invariant
            items@.len() <= all.len(),
            forall|j: int| 0 <= j < items@.len() ==> items@[j] == all[all.len() - 1 - j],
            out@ == sort_desc(all.take(all.len() - items@.len())),
        decreases items@.len(),
    {
        let ghost idx = all.len() - items@.len();
        let x = items.pop().unwrap();
        assert(x == all[idx]);
        let mut p = out.len();
        while p > 0 && str_less_exec(
            &chars_of(out[p - 1].filename.as_str()),
            &chars_of(x.filename.as_str()),
        )
            invariant
                p <= out@.len(),
                forall|j: int| p <= j < out@.len() ==> str_less(#[trigger] out@[j].filename@, x.filename@),
            decreases p,
        {
            p -= 1;
        }
        proof {
            lemma_insert_desc_at(out@, x, p as int);
            assert(all.take(idx + 1).drop_last() =~= all.take(idx));
            assert(all.take(idx + 1).last() == x);
        }
        out.insert(p, x);
    }
    assert(all.take(all.len() as int) =~= all);
    out
}


/// The preview shown for a note: its first 120 characters, nothing when it
/// could not be read.
pub open spec fn preview_of(content: Option<String>) -> Seq<char> {
    match content {
        Some(c) => truncate_chars_spec(c@, 120),
        None => Seq::empty(),
    }
}

/// `info` lists `entry`.
pub open spec fn info_of(info: DailyMemoryFileInfo, entry: DailyMemoryEntry) -> bool {
    &&& info.filename@ == entry.filename@
    &&& info.date@ == strip_md(entry.filename@)
    &&& info.size_bytes == entry.size_bytes
    &&& info.modified_at == entry.modified_at
    &&& info.preview@ == preview_of(entry.content)
}

/// The daily notes, newest first, with their dates and previews.
pub fn list_daily_memory_files(entries: Vec<DailyMemoryEntry>) -> (out: Vec<DailyMemoryFileInfo>)
    ensures
        out@.len() == entries@.len(),
        forall|i: int| 0 <= i < out@.len() ==> info_of(#[trigger] out@[i], sort_desc(entries@)[i]),
{
    let sorted = sort_entries_desc(entries);
    let mut out: Vec<DailyMemoryFileInfo> = Vec::new();
    let mut i: usize = 0;
    while i < sorted.len()
        invariant
            i <= sorted@.len(),
            out@.len() == i,
            forall|k: int| 0 <= k < i ==> info_of(#[trigger] out@[k], sorted@[k]),
        decreases sorted@.len() - i,
    {
        let e = &sorted[i];
        let preview = match &e.content {
            Some(c) => preview_text(c.as_str()),
            None => String::new(),
        };
        let filename = string_of(&chars_of(e.filename.as_str()));
        let info = DailyMemoryFileInfo {
            date: daily_memory_date(e.filename.as_str()),
            filename,
            size_bytes: e.size_bytes,
            modified_at: e.modified_at,
            preview,
        };
        out.push(info);
        i += 1;
    }
    proof {
        lemma_sort_desc_len(entries@);
    }
    out
}

proof fn lemma_insert_desc_len(s: Seq<DailyMemoryEntry>, x: DailyMemoryEntry)
    ensures
        insert_desc(s, x).len() == s.len() + 1,
    decreases s.len(),
{
    if s.len() > 0 && str_less(s.last().filename@, x.filename@) {
        lemma_insert_desc_len(s.drop_last(), x);
    }
}

proof fn lemma_sort_desc_len(s: Seq<DailyMemoryEntry>)
    ensures
        sort_desc(s).len() == s.len(),
    decreases s.len(),
{
    if s.len() > 0 {
        lemma_sort_desc_len(s.drop_last());
        lemma_insert_desc_len(sort_desc(s.drop_last()), s.last());
    }
}

/// Names never increase along `s`.
pub open spec fn newest_first(s: Seq<DailyMemoryEntry>) -> bool {
    forall|i: int, j: int| 0 <= i < j < s.len() ==> !str_less(#[trigger] s[i].filename@, #[trigger] s[j].filename@)
}

proof fn lemma_str_less_irreflexive(a: Seq<char>)
    ensures
        !str_less(a, a),
    decreases a.len(),
{
    if a.len() > 0 {
        lemma_str_less_irreflexive(a.drop_first());
    }
}

proof fn lemma_str_less_transitive(a: Seq<char>, b: Seq<char>, c: Seq<char>)
    requires
        str_less(a, b),
        str_less(b, c),
    ensures
        str_less(a, c),
    decreases a.len(),
{
    if a.len() > 0 && b.len() > 0 && c.len() > 0 && a[0] == b[0] && b[0] == c[0] {
        lemma_str_less_transitive(a.drop_first(), b.drop_first(), c.drop_first());
    }
}

proof fn lemma_str_less_total(a: Seq<char>, b: Seq<char>)
    ensures
        str_less(a, b) || str_less(b, a) || a == b,
    decreases a.len(),
{
    if a.len() > 0 && b.len() > 0 && a[0] == b[0] {
        lemma_str_less_total(a.drop_first(), b.drop_first());
        if a.drop_first() == b.drop_first() {
            assert(a =~= seq![a[0]] + a.drop_first());
            assert(b =~= seq![b[0]] + b.drop_first());
        }
    } else if a.len() > 0 && b.len() > 0 {
        vstd::utf8::char_u32_cast(a[0], a[0] as u32);
        vstd::utf8::char_u32_cast(b[0], b[0] as u32);
    } else if a.len() == 0 && b.len() == 0 {
        assert(a =~= b);
    }
}

/// `!(a < b)` and `!(b < c)` give `!(a < c)`.
proof fn lemma_not_less_chain(a: Seq<char>, b: Seq<char>, c: Seq<char>)
    requires
        !str_less(a, b),
        !str_less(b, c),
    ensures
        !str_less(a, c),
{
    if str_less(a, c) {
        lemma_str_less_total(a, b);
        if str_less(b, a) {
            lemma_str_less_transitive(b, a, c);
        }
    }
}

proof fn lemma_insert_desc_multiset(s: Seq<DailyMemoryEntry>, x: DailyMemoryEntry)
    ensures
        insert_desc(s, x).to_multiset() == s.to_multiset().insert(x),
    decreases s.len(),
{
    broadcast use vstd::seq_lib::group_to_multiset_ensures;

    if s.len() == 0 {
        assert(seq![x] =~= Seq::<DailyMemoryEntry>::empty().push(x));
    } else if !str_less(s.last().filename@, x.filename@) {
    } else {
        lemma_insert_desc_multiset(s.drop_last(), x);
        assert(s =~= s.drop_last().push(s.last()));
        assert(insert_desc(s, x).to_multiset() =~= s.drop_last().to_multiset().insert(x).insert(s.last()));
        assert(s.to_multiset() =~= s.drop_last().to_multiset().insert(s.last()));
    }
}

proof fn lemma_insert_desc_sorted(s: Seq<DailyMemoryEntry>, x: DailyMemoryEntry)
    requires
        newest_first(s),
    ensures
        newest_first(insert_desc(s, x)),
    decreases s.len(),
{
    broadcast use vstd::seq_lib::group_to_multiset_ensures;

    if s.len() == 0 {
    } else if !str_less(s.last().filename@, x.filename@) {
        let r = s.push(x);
        assert forall|i: int, j: int| 0 <= i < j < r.len() implies !str_less(
            #[trigger] r[i].filename@,
            #[trigger] r[j].filename@,
        ) by {
            if j == s.len() && i < s.len() - 1 {
                assert(!str_less(s[i].filename@, s[s.len() - 1].filename@));
                lemma_not_less_chain(s[i].filename@, s.last().filename@, x.filename@);
            }
        }
    } else {
        let t = s.drop_last();
        assert(newest_first(t)) by {
            assert forall|i: int, j: int| 0 <= i < j < t.len() implies !str_less(
                #[trigger] t[i].filename@,
                #[trigger] t[j].filename@,
            ) by {
                assert(!str_less(s[i].filename@, s[j].filename@));
            }
        }
        lemma_insert_desc_sorted(t, x);
        lemma_insert_desc_multiset(t, x);
        let u = insert_desc(t, x);
        let r = u.push(s.last());
        assert forall|i: int, j: int| 0 <= i < j < r.len() implies !str_less(
            #[trigger] r[i].filename@,
            #[trigger] r[j].filename@,
        ) by {
            if j == u.len() {
                let e = u[i];
                assert(u.contains(e));
                assert(u.to_multiset().count(e) > 0);
                if e == x {
                    if str_less(x.filename@, s.last().filename@) {
                        lemma_str_less_transitive(x.filename@, s.last().filename@, x.filename@);
                        lemma_str_less_irreflexive(x.filename@);
                    }
                } else {
                    assert(t.to_multiset().count(e) > 0);
                    assert(t.contains(e));
                    let k = choose|k: int| 0 <= k < t.len() && t[k] == e;
                    assert(!str_less(s[k].filename@, s[s.len() - 1].filename@));
                }
            }
        }
    }
}

/// The listing comes newest first and holds exactly the entries given:
/// names never increase along it, and it is a rearrangement of them.
pub proof fn law_listing_newest_first(entries: Seq<DailyMemoryEntry>)
    ensures
        newest_first(sort_desc(entries)),
        sort_desc(entries).to_multiset() == entries.to_multiset(),
    decreases entries.len(),
{
    broadcast use vstd::seq_lib::group_to_multiset_ensures;

    if entries.len() > 0 {
        law_listing_newest_first(entries.drop_last());
        lemma_insert_desc_sorted(sort_desc(entries.drop_last()), entries.last());
        lemma_insert_desc_multiset(sort_desc(entries.drop_last()), entries.last());
        assert(entries =~= entries.drop_last().push(entries.last()));
    } else {
        assert(sort_desc(entries).to_multiset() =~= entries.to_multiset());
    }
}

/// What a search shows for one note: `(filename, date, size, modified,
/// snippet, match count)`, or `None` when neither the date nor the text
/// matches.
pub open spec fn search_hit(query: Seq<char>, e: DailyMemoryEntry) -> Option<
    (Seq<char>, Seq<char>, u64, u64, Seq<char>, nat),
> {
    let q = str_lowercase(query);
    let date = strip_md(e.filename@);
    let date_matches = contains(str_lowercase(date), q);
    let count = match e.content {
        Some(c) => count_matches_spec(c@, query),
        None => 0,
    };
    if !date_matches && count == 0 {
        None
    } else {
        let snippet = match e.content {
            Some(c) => match first_range_spec(c@, query) {
                Some((s, en)) => snippet_spec(c@, s as nat, en as nat),
                None => if date_matches {
                    truncate_chars_spec(c@, 120)
                } else {
                    Seq::empty()
                },
            },
            None => Seq::empty(),
        };
        Some((e.filename@, date, e.size_bytes, e.modified_at, snippet, count))
    }
}

/// The hits among `es`, in order.
pub open spec fn search_hits(query: Seq<char>, es: Seq<DailyMemoryEntry>) -> Seq<
    (Seq<char>, Seq<char>, u64, u64, Seq<char>, nat),
>
    decreases es.len(),
{
    if es.len() == 0 {
        Seq::empty()
    } else {
        match search_hit(query, es.last()) {
            Some(h) => search_hits(query, es.drop_last()).push(h),
            None => search_hits(query, es.drop_last()),
        }
    }
}

pub open spec fn result_view(r: DailyMemorySearchResult) -> (
    Seq<char>,
    Seq<char>,
    u64,
    u64,
    Seq<char>,
    nat,
) {
    (r.filename@, r.date@, r.size_bytes, r.modified_at, r.snippet@, r.match_count as nat)
}

proof fn lemma_search_hits_from(query: Seq<char>, es: Seq<DailyMemoryEntry>)
    requires
        newest_first(es),
    ensures
        forall|i: int, j: int|
            0 <= i < j < search_hits(query, es).len() ==> !str_less(
                #[trigger] search_hits(query, es)[i].0,
                #[trigger] search_hits(query, es)[j].0,
            ),
        forall|i: int|
            0 <= i < search_hits(query, es).len() ==> exists|k: int|
                0 <= k < es.len() && (#[trigger] search_hits(query, es)[i]).0 == es[k].filename@,
    decreases es.len(),
{
    if es.len() > 0 {
        let t = es.drop_last();
        assert(newest_first(t)) by {
            assert forall|i: int, j: int| 0 <= i < j < t.len() implies !str_less(
                #[trigger] t[i].filename@,
                #[trigger] t[j].filename@,
            ) by {
                assert(!str_less(es[i].filename@, es[j].filename@));
            }
        }
        lemma_search_hits_from(query, t);
        let prev = search_hits(query, t);
        let hits = search_hits(query, es);
        match search_hit(query, es.last()) {
            Some(h) => {
                assert(hits == prev.push(h));
                assert(h.0 == es.last().filename@);
                assert forall|i: int, j: int| 0 <= i < j < hits.len() implies !str_less(
                    #[trigger] hits[i].0,
                    #[trigger] hits[j].0,
                ) by {
                    if j == hits.len() - 1 {
                        let k = choose|k: int| 0 <= k < t.len() && prev[i].0 == t[k].filename@;
                        assert(!str_less(es[k].filename@, es[es.len() - 1].filename@));
                    } else {
                        assert(hits[i] == prev[i] && hits[j] == prev[j]);
                    }
                }
                assert forall|i: int| 0 <= i < hits.len() implies exists|k: int|
                    0 <= k < es.len() && (#[trigger] hits[i]).0 == es[k].filename@ by {
                    if i == hits.len() - 1 {
                        assert(hits[i].0 == es[es.len() - 1].filename@);
                    } else {
                        let k = choose|k: int| 0 <= k < t.len() && prev[i].0 == t[k].filename@;
                        assert(hits[i].0 == es[k].filename@);
                    }
                }
            },
            None => {
                assert forall|i: int| 0 <= i < hits.len() implies exists|k: int|
                    0 <= k < es.len() && (#[trigger] hits[i]).0 == es[k].filename@ by {
                    let k = choose|k: int| 0 <= k < t.len() && prev[i].0 == t[k].filename@;
                    assert(hits[i].0 == es[k].filename@);
                }
            },
        }
    }
}

/// Search results come newest first, as the listing does.
pub proof fn law_search_results_newest_first(query: Seq<char>, entries: Seq<DailyMemoryEntry>)
    ensures
        forall|i: int, j: int|
            0 <= i < j < search_hits(query, sort_desc(entries)).len() ==> !str_less(
                #[trigger] search_hits(query, sort_desc(entries))[i].0,
                #[trigger] search_hits(query, sort_desc(entries))[j].0,
            ),
{
    law_listing_newest_first(entries);
    lemma_search_hits_from(query, sort_desc(entries));
}

proof fn lemma_search_hits_same_lowered(a: Seq<char>, b: Seq<char>, es: Seq<DailyMemoryEntry>)
    requires
        str_lowercase(a) == str_lowercase(b),
    ensures
        search_hits(a, es) == search_hits(b, es),
    decreases es.len(),
{
    if es.len() > 0 {
        lemma_search_hits_same_lowered(a, b, es.drop_last());
        assert(search_hit(a, es.last()) == search_hit(b, es.last()));
    }
}

/// Matching ignores case as lower-casing does: two queries whose trimmed
/// texts lower-case alike find the same notes, with the same snippets and
/// counts.
pub proof fn law_search_depends_on_lowered_query(
    q1: Seq<char>,
    q2: Seq<char>,
    entries: Seq<DailyMemoryEntry>,
)
    requires
        str_lowercase(trim(q1)) == str_lowercase(trim(q2)),
    ensures
        search_hits(trim(q1), sort_desc(entries)) == search_hits(trim(q2), sort_desc(entries)),
{
    lemma_search_hits_same_lowered(trim(q1), trim(q2), sort_desc(entries));
}

proof fn lemma_trim_start_blank_prefix(p: Seq<char>, s: Seq<char>)
    requires
        forall|i: int| 0 <= i < p.len() ==> is_space(#[trigger] p[i]),
    ensures
        trim_start(p + s) == trim_start(s),
    decreases p.len(),
{
    if p.len() > 0 {
        assert((p + s).drop_first() =~= p.drop_first() + s);
        assert(is_space(p[0]));
        lemma_trim_start_blank_prefix(p.drop_first(), s);
    } else {
        assert(p + s =~= s);
    }
}

proof fn lemma_trim_end_blank_suffix(s: Seq<char>, p: Seq<char>)
    requires
        forall|i: int| 0 <= i < p.len() ==> is_space(#[trigger] p[i]),
    ensures
        trim_end(s + p) == trim_end(s),
    decreases p.len(),
{
    if p.len() > 0 {
        assert((s + p).drop_last() =~= s + p.drop_last());
        assert((s + p).last() == p[p.len() - 1]);
        lemma_trim_end_blank_suffix(s, p.drop_last());
    } else {
        assert(s + p =~= s);
    }
}

proof fn lemma_trim_start_append(s: Seq<char>, p: Seq<char>)
    ensures
        trim_start(s).len() > 0 ==> trim_start(s + p) == trim_start(s) + p,
        trim_start(s).len() == 0 ==> trim_start(s + p) == trim_start(p),
    decreases s.len(),
{
    if s.len() == 0 {
        assert(s + p =~= p);
    } else {
        assert((s + p)[0] == s[0]);
        if is_space(s[0]) {
            assert((s + p).drop_first() =~= s.drop_first() + p);
            lemma_trim_start_append(s.drop_first(), p);
        }
    }
}

proof fn lemma_trim_start_of_blank(s: Seq<char>)
    requires
        forall|i: int| 0 <= i < s.len() ==> is_space(#[trigger] s[i]),
    ensures
        trim_start(s).len() == 0,
    decreases s.len(),
{
    if s.len() > 0 {
        assert(is_space(s[0]));
        assert forall|i: int| 0 <= i < s.drop_first().len() implies is_space(
            #[trigger] s.drop_first()[i],
        ) by {
            assert(s.drop_first()[i] == s[i + 1]);
        }
        lemma_trim_start_of_blank(s.drop_first());
    }
}

/// Blanks around a query do not matter: the search uses the trimmed query,
/// and padding a query with blanks leaves its trimmed text unchanged.
pub proof fn law_search_ignores_surrounding_blanks(q: Seq<char>, front: Seq<char>, back: Seq<char>)
    requires
        forall|i: int| 0 <= i < front.len() ==> is_space(#[trigger] front[i]),
        forall|i: int| 0 <= i < back.len() ==> is_space(#[trigger] back[i]),
    ensures
        trim(front + q + back) == trim(q),
{
    assert(front + q + back =~= front + (q + back));
    lemma_trim_start_blank_prefix(front, q + back);
    lemma_trim_start_append(q, back);
    if trim_start(q).len() > 0 {
        lemma_trim_end_blank_suffix(trim_start(q), back);
    } else {
        lemma_trim_start_of_blank(back);
        assert(trim_start(q) =~= Seq::<char>::empty());
        assert(trim_start(q + back) =~= Seq::<char>::empty());
    }
}

/// Whether a search with `query` can match anything (and so needs the notes
/// to be read).
pub fn search_query_is_blank(query: &str) -> (b: bool)
    ensures
        b == (trim(query@).len() == 0),
{
    let chars = chars_of(query);
    let t = trim_chars(&chars);
    t.len() == 0
}

/// The notes whose date or text contains `query` (trimmed, ignoring case),
/// newest first, each with a snippet around its first match and the number
/// of matches in its text. A blank query finds nothing.
pub fn search_daily_memory_files(query: String, entries: Vec<DailyMemoryEntry>) -> (out: Vec<
    DailyMemorySearchResult,
>)
    ensures
        trim(query@).len() == 0 ==> out@.len() == 0,
        trim(query@).len() > 0 ==> out@.map_values(|r: DailyMemorySearchResult| result_view(r))
            == search_hits(trim(query@), sort_desc(entries@)),
{
    let qchars = chars_of(query.as_str());
    let tchars = trim_chars(&qchars);
    if tchars.len() == 0 {
        return Vec::new();
    }
    let trimmed = string_of(&tchars);
    let ghost t = trimmed@;
    let q_lower = str_to_lowercase(trimmed.as_str());
    let q = chars_of(q_lower.as_str());
    let sorted = sort_entries_desc(entries);
    let mut results: Vec<DailyMemorySearchResult> = Vec::new();
    let mut i: usize = 0;
    while i < sorted.len()
        invariant
            i <= sorted@.len(),
            t == trimmed@,
            q@ == str_lowercase(t),
            results@.map_values(|r: DailyMemorySearchResult| result_view(r)) == search_hits(
                t,
                sorted@.take(i as int),
            ),
        decreases sorted@.len() - i,
    {
        let e = &sorted[i];
        let ghost before = results@.map_values(|r: DailyMemorySearchResult| result_view(r));
        proof {
            assert(sorted@.take(i + 1).drop_last() =~= sorted@.take(i as int));
            assert(sorted@.take(i + 1).last() == sorted@[i as int]);
        }
        let date = daily_memory_date(e.filename.as_str());
        let date_lower = str_to_lowercase(date.as_str());
        let date_matches = contains_chars(&chars_of(date_lower.as_str()), &q);
        let count = match &e.content {
            Some(c) => count_case_insensitive_matches(c.as_str(), trimmed.as_str()),
            None => 0,
        };
        if date_matches || count > 0 {
            let snippet = match &e.content {
                Some(c) => match first_case_insensitive_match_range(c.as_str(), trimmed.as_str()) {
                    Some((s, en)) => {
                        proof {
                            let low = lowered(c@);
                            let ql = str_lowercase(t);
                            let ls = crate::json_lines::first_match(low, ql)->0;
                            assert(occurs_at(low, ql, ls));
                            lemma_source_index_bounds(c@, ls, ls + ql.len() - 1);
                            lemma_char_index_at_byte(c@, source_index(c@, ls));
                            lemma_char_index_at_byte(c@, source_index(c@, ls + ql.len() - 1) + 1);
                        }
                        snippet_text(c.as_str(), s, en)
                    },
                    None => if date_matches {
                        preview_text(c.as_str())
                    } else {
                        String::new()
                    },
                },
                None => String::new(),
            };
            let r = DailyMemorySearchResult {
                filename: string_of(&chars_of(e.filename.as_str())),
                date,
                size_bytes: e.size_bytes,
                modified_at: e.modified_at,
                snippet,
                match_count: count,
            };
            results.push(r);
            assert(results@.map_values(|r: DailyMemorySearchResult| result_view(r)) =~= before.push(
                result_view(r),
            ));
        }
        i += 1;
    }
    assert(sorted@.take(sorted@.len() as int) =~= sorted@);
    results
}


/// What inspecting a path (without following a final symlink) found.
#[derive(Debug, Clone, PartialEq, Eq)]
pub enum PathStatus {
    /// Nothing exists at the path.
    Missing,
    /// Something that is not a symlink exists at the path.
    Present,
    /// The path is a symlink.
    Symlink,
    /// Inspecting the path failed with this error text.
    InspectFailed(String),
}

/// A path as the user sees it, and what is at it.
#[derive(Debug, Clone, PartialEq, Eq)]
pub struct PathProbe {
    pub display: String,
    pub status: PathStatus,
}

/// Whether the path is a symlink; inspection failures are errors.
pub fn is_symlink(path: &PathProbe) -> (r: Result<bool, String>)
    ensures
        match path.status {
            PathStatus::Missing => r == Ok::<bool, String>(false),
            PathStatus::Present => r == Ok::<bool, String>(false),
            PathStatus::Symlink => r == Ok::<bool, String>(true),
            PathStatus::InspectFailed(e) => r matches Err(msg) && msg@ == "Failed to inspect file metadata "@
                + path.display@ + ": "@ + e@,
        },
{
    match &path.status {
        PathStatus::Missing => Ok(false),
        PathStatus::Present => Ok(false),
        PathStatus::Symlink => Ok(true),
        PathStatus::InspectFailed(e) => {
            let mut v = chars_of("Failed to inspect file metadata ");
            extend_chars(&mut v, &chars_of(path.display.as_str()));
            extend_chars(&mut v, &chars_of(": "));
            extend_chars(&mut v, &chars_of(e.as_str()));
            Err(string_of(&v))
        },
    }
}

/// The path is usable: it exists or not, but is not a symlink.
pub open spec fn path_safe(path: PathProbe) -> bool {
    path.status is Missing || path.status is Present
}

/// `r` fails with exactly the message `err` holds, or succeeds when it
/// holds none.
pub open spec fn outcome_is<T>(r: Result<T, String>, err: Option<Seq<char>>) -> bool {
    match err {
        Some(m) => r matches Err(x) && x@ == m,
        None => r is Ok,
    }
}

/// The first of two checks that fails, in the order they run.
pub open spec fn first_error(a: Option<Seq<char>>, b: Option<Seq<char>>) -> Option<Seq<char>> {
    if a is Some {
        a
    } else {
        b
    }
}

/// The message of a failed inspection of `path`, if it failed.
pub open spec fn inspect_error(path: PathProbe) -> Option<Seq<char>> {
    match path.status {
        PathStatus::InspectFailed(e) => Some(
            "Failed to inspect file metadata "@ + path.display@ + ": "@ + e@,
        ),
        _ => None,
    }
}

/// Why the directory at `path` (named `label` in messages) is refused, if
/// it is.
pub open spec fn directory_error(path: PathProbe, label: Seq<char>) -> Option<Seq<char>> {
    match path.status {
        PathStatus::Symlink => Some("Refusing to use symlinked "@ + label + ": "@ + path.display@),
        _ => inspect_error(path),
    }
}

/// Why the workspace directory is refused, if it is.
pub open spec fn workspace_root_error(workspace: PathProbe) -> Option<Seq<char>> {
    directory_error(workspace, "workspace directory"@)
}

/// Why the workspace or daily memory directory is refused, if one is.
pub open spec fn daily_root_error(workspace: PathProbe, memory: PathProbe) -> Option<Seq<char>> {
    first_error(workspace_root_error(workspace), directory_error(memory, "daily memory directory"@))
}

/// Why a workspace file name is refused, if it is.
pub open spec fn workspace_name_error(name: Seq<char>) -> Option<Seq<char>> {
    if allowed_workspace_file(name) {
        None
    } else {
        Some("Invalid workspace filename: "@ + name)
    }
}

/// Why a daily note name is refused, if it is.
pub open spec fn daily_name_error(name: Seq<char>) -> Option<Seq<char>> {
    if daily_memory_name_matches(name) {
        None
    } else {
        Some("Invalid daily memory filename: "@ + name)
    }
}

/// Why the file at `file` may not be read, if it may not; `refusal` starts
/// the message for a symlink.
pub open spec fn file_read_error(file: PathProbe, refusal: Seq<char>) -> Option<Seq<char>> {
    match file.status {
        PathStatus::Symlink => Some(refusal + file.display@),
        _ => inspect_error(file),
    }
}

/// Refuses a symlinked directory (`label` names it in the message).
pub fn ensure_path_not_symlink(path: &PathProbe, label: &str) -> (r: Result<(), String>)
    ensures
        r is Ok <==> path_safe(*path),
        outcome_is(r, directory_error(*path, label@)),
{
    match is_symlink(path) {
        Err(e) => Err(e),
        Ok(true) => {
            let mut v = chars_of("Refusing to use symlinked ");
            extend_chars(&mut v, &chars_of(label));
            extend_chars(&mut v, &chars_of(": "));
            extend_chars(&mut v, &chars_of(path.display.as_str()));
            Err(string_of(&v))
        },
        Ok(false) => Ok(()),
    }
}

/// Refuses a symlinked workspace directory.
pub fn ensure_workspace_root_safe(workspace: &PathProbe) -> (r: Result<(), String>)
    ensures
        r is Ok <==> path_safe(*workspace),
        outcome_is(r, workspace_root_error(*workspace)),
{
    ensure_path_not_symlink(workspace, "workspace directory")
}

/// Refuses a symlinked workspace or daily memory directory.
pub fn ensure_daily_memory_root_safe(workspace: &PathProbe, memory: &PathProbe) -> (r: Result<
    (),
    String,
>)
    ensures
        r is Ok <==> path_safe(*workspace) && path_safe(*memory),
        outcome_is(r, daily_root_error(*workspace, *memory)),
{
    ensure_workspace_root_safe(workspace)?;
    ensure_path_not_symlink(memory, "daily memory directory")
}

/// Whether the inspected file exists; a symlink counts as missing.
pub fn file_exists_at(file: &PathProbe) -> (r: Result<bool, String>)
    ensures
        outcome_is(r, inspect_error(*file)),
        r is Ok ==> r == Ok::<bool, String>(file.status is Present),
{
    if is_symlink(file)? {
        return Ok(false);
    }
    Ok(match file.status {
        PathStatus::Present => true,
        _ => false,
    })
}

/// Whether a workspace file exists. The name must be one of the workspace
/// files and the workspace must not be a symlink; only then is the file
/// inspected (`probe_file`), and a symlinked file counts as missing.
pub fn workspace_file_exists<F: FnOnce() -> PathProbe>(
    filename: String,
    workspace: &PathProbe,
    probe_file: F,
) -> (r: Result<bool, String>)
    requires
        first_error(workspace_name_error(filename@), workspace_root_error(*workspace)) is None
            ==> call_requires(probe_file, ()),
    ensures
        match first_error(workspace_name_error(filename@), workspace_root_error(*workspace)) {
            Some(m) => r matches Err(x) && x@ == m,
            None => exists|file: PathProbe|
                call_ensures(probe_file, (), file) && outcome_is(r, inspect_error(file)) && (r is Ok
                    ==> r == Ok::<bool, String>(file.status is Present)),
        },
{
    validate_workspace_filename(filename.as_str())?;
    ensure_workspace_root_safe(workspace)?;
    let file = probe_file();
    let r = file_exists_at(&file);
    assert(call_ensures(probe_file, (), file));
    r
}

/// Whether a workspace file may be written: the name must be one of the
/// workspace files and the workspace must not be a symlink.
pub fn write_workspace_file(filename: String, workspace: &PathProbe) -> (r: Result<(), String>)
    ensures
        r is Ok <==> allowed_workspace_file(filename@) && path_safe(*workspace),
        outcome_is(r, first_error(workspace_name_error(filename@), workspace_root_error(*workspace))),
{
    validate_workspace_filename(filename.as_str())?;
    ensure_workspace_root_safe(workspace)
}

/// Whether a daily note may be written: the name must be a daily note name
/// and neither directory may be a symlink.
pub fn write_daily_memory_file(filename: String, workspace: &PathProbe, memory: &PathProbe) -> (r:
    Result<(), String>)
    ensures
        r is Ok <==> daily_memory_name_matches(filename@) && path_safe(*workspace) && path_safe(
            *memory,
        ),
        outcome_is(r, first_error(daily_name_error(filename@), daily_root_error(*workspace, *memory))),
{
    validate_daily_memory_filename(filename.as_str())?;
    ensure_daily_memory_root_safe(workspace, memory)
}

/// What reading a workspace file or daily note amounts to.
#[derive(Debug, Clone, Copy, PartialEq, Eq, Structural)]
pub enum ReadPlan {
    /// Nothing is there: the read yields `None`.
    Absent,
    /// Read the file's text.
    Read,
}

/// Whether the inspected file may be read, and whether there is anything
/// to read; a symlink is refused with `refusal` and the file's path.
pub fn read_plan_at(file: &PathProbe, refusal: &str) -> (r: Result<ReadPlan, String>)
    ensures
        outcome_is(r, file_read_error(*file, refusal@)),
        r is Ok ==> (r == Ok::<ReadPlan, String>(ReadPlan::Read) <==> file.status is Present),
{
    if is_symlink(file)? {
        let mut v = chars_of(refusal);
        extend_chars(&mut v, &chars_of(file.display.as_str()));
        return Err(string_of(&v));
    }
    match file.status {
        PathStatus::Present => Ok(ReadPlan::Read),
        _ => Ok(ReadPlan::Absent),
    }
}

/// Whether a workspace file may be read, and whether there is anything to
/// read. The name and the workspace are checked first; only then is the
/// file inspected (`probe_file`), and a symlinked file is refused.
pub fn read_workspace_file<F: FnOnce() -> PathProbe>(
    filename: String,
    workspace: &PathProbe,
    probe_file: F,
) -> (r: Result<ReadPlan, String>)
    requires
        first_error(workspace_name_error(filename@), workspace_root_error(*workspace)) is None
            ==> call_requires(probe_file, ()),
    ensures
        match first_error(workspace_name_error(filename@), workspace_root_error(*workspace)) {
            Some(m) => r matches Err(x) && x@ == m,
            None => exists|file: PathProbe|
                call_ensures(probe_file, (), file) && outcome_is(
                    r,
                    file_read_error(file, "Refusing to read workspace file symlink: "@),
                ) && (r is Ok ==> (r == Ok::<ReadPlan, String>(ReadPlan::Read)
                    <==> file.status is Present)),
        },
{
    validate_workspace_filename(filename.as_str())?;
    ensure_workspace_root_safe(workspace)?;
    let file = probe_file();
    let r = read_plan_at(&file, "Refusing to read workspace file symlink: ");
    assert(call_ensures(probe_file, (), file));
    r
}

/// Whether a daily note may be read, and whether there is anything to read.
/// The name and both directories are checked first; only then is the note
/// inspected (`probe_file`), and a symlinked note is refused.
pub fn read_daily_memory_file<F: FnOnce() -> PathProbe>(
    filename: String,
    workspace: &PathProbe,
    memory: &PathProbe,
    probe_file: F,
) -> (r: Result<ReadPlan, String>)
    requires
        first_error(daily_name_error(filename@), daily_root_error(*workspace, *memory)) is None
            ==> call_requires(probe_file, ()),
    ensures
        match first_error(daily_name_error(filename@), daily_root_error(*workspace, *memory)) {
            Some(m) => r matches Err(x) && x@ == m,
            None => exists|file: PathProbe|
                call_ensures(probe_file, (), file) && outcome_is(
                    r,
                    file_read_error(file, "Refusing to read daily memory symlink: "@),
                ) && (r is Ok ==> (r == Ok::<ReadPlan, String>(ReadPlan::Read)
                    <==> file.status is Present)),
        },
{
    validate_daily_memory_filename(filename.as_str())?;
    ensure_daily_memory_root_safe(workspace, memory)?;
    let file = probe_file();
    let r = read_plan_at(&file, "Refusing to read daily memory symlink: ");
    assert(call_ensures(probe_file, (), file));
    r
}

/// Whether a daily note may be deleted, and whether there is anything to
/// delete. The name and both directories are checked first; only then is
/// the note looked for (`note_exists`).
pub fn delete_daily_memory_file<F: FnOnce() -> bool>(
    filename: String,
    workspace: &PathProbe,
    memory: &PathProbe,
    note_exists: F,
) -> (r: Result<bool, String>)
    requires
        first_error(daily_name_error(filename@), daily_root_error(*workspace, *memory)) is None
            ==> call_requires(note_exists, ()),
    ensures
        match first_error(daily_name_error(filename@), daily_root_error(*workspace, *memory)) {
            Some(m) => r matches Err(x) && x@ == m,
            None => exists|found: bool|
                call_ensures(note_exists, (), found) && r == Ok::<bool, String>(found),
        },
{
    validate_daily_memory_filename(filename.as_str())?;
    ensure_daily_memory_root_safe(workspace, memory)?;
    let found = note_exists();
    assert(call_ensures(note_exists, (), found));
    Ok(found)
}

/// Which directory to open.
#[derive(Debug, Clone, Copy, PartialEq, Eq, Structural)]
pub enum WorkspaceDir {
    Workspace,
    DailyMemory,
}

/// The desktop shell's handle; the terminal build has none.
pub type AppHandle = ();

/// The directory that `subdir` names (`memory` for the daily notes, anything
/// else for the workspace), once it is known not to be a symlink.
pub fn open_workspace_directory(_handle: AppHandle, subdir: String, workspace: &PathProbe, memory: &PathProbe) -> (r:
    Result<WorkspaceDir, String>)
    ensures
        subdir@ == "memory"@ ==> (r is Ok <==> path_safe(*workspace) && path_safe(*memory)) && (r is Ok
            ==> r == Ok::<WorkspaceDir, String>(WorkspaceDir::DailyMemory)),
        subdir@ != "memory"@ ==> (r is Ok <==> path_safe(*workspace)) && (r is Ok ==> r == Ok::<
            WorkspaceDir,
            String,
        >(WorkspaceDir::Workspace)),
        subdir@ == "memory"@ ==> outcome_is(r, daily_root_error(*workspace, *memory)),
        subdir@ != "memory"@ ==> outcome_is(r, workspace_root_error(*workspace)),
{
    let s = chars_of(subdir.as_str());
    if chars_eq_str(&s, "memory") {
        ensure_daily_memory_root_safe(workspace, memory)?;
        Ok(WorkspaceDir::DailyMemory)
    } else {
        ensure_workspace_root_safe(workspace)?;
        Ok(WorkspaceDir::Workspace)
    }
}

/// Whether a directory entry is kept as a daily note: a regular file with a
/// daily note name.
pub fn daily_memory_entry_accepted(is_file: bool, filename: &str) -> (b: bool)
    ensures
        b == (is_file && daily_memory_name_matches(filename@)),
{
    is_file && validate_daily_memory_filename(filename).is_ok()
}

} // verus!
