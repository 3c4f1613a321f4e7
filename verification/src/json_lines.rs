//! Locating keys in pretty-printed JSON, line by line, for highlighting the
//! lines that come from a shared config snippet.
use vstd::prelude::*;

use crate::text::{chars_eq, chars_of, find_from, occurs_at, string_of, trim_start, trim_start_chars, views};

verus! {

/// `i` is the first position at which `needle` occurs in `s`.
pub open spec fn is_first_match(s: Seq<char>, needle: Seq<char>, i: int) -> bool {
    occurs_at(s, needle, i) && forall|j: int| 0 <= j < i ==> !occurs_at(s, needle, j)
}

/// Where `needle` first occurs in `s`, if it does.
pub open spec fn first_match(s: Seq<char>, needle: Seq<char>) -> Option<int> {
    if exists|i: int| is_first_match(s, needle, i) {
        Some(choose|i: int| is_first_match(s, needle, i))
    } else {
        None
    }
}

pub proof fn lemma_first_match_unique(s: Seq<char>, needle: Seq<char>, i: int, j: int)
    requires
        is_first_match(s, needle, i),
        is_first_match(s, needle, j),
    ensures
        i == j,
{
    if i < j {
        assert(occurs_at(s, needle, i));
    } else if j < i {
        assert(occurs_at(s, needle, j));
    }
}

/// The text after the first `":` of `s`.
pub open spec fn after_key(s: Seq<char>) -> Option<Seq<char>> {
    match first_match(s, "\":"@) {
        Some(k) => Some(s.skip(k + 2)),
        None => None,
    }
}

/// The key of a (left-trimmed) line `"key": value`, when the value is on
/// the same line.
pub open spec fn json_line_key_spec(line: Seq<char>) -> Option<Seq<char>> {
    if line.len() == 0 || line[0] != '"' {
        None
    } else {
        let rest = line.drop_first();
        match first_match(rest, "\":"@) {
            Some(k) => if trim_start(rest.skip(k + 2)).len() == 0 {
                None
            } else {
                Some(rest.take(k))
            },
            None => None,
        }
    }
}

/// Whether a (left-trimmed) line's value opens an object or an array.
pub open spec fn opens_container_spec(line: Seq<char>) -> bool {
    match after_key(line) {
        Some(v) => {
            let t = trim_start(v);
            t.len() > 0 && (t[0] == '{' || t[0] == '[')
        },
        None => false,
    }
}

/// Position of the first `":` in `s`, tied to `first_match`.
fn first_key_colon(s: &[char]) -> (r: Option<usize>)
    ensures
        match r {
            Some(k) => first_match(s@, "\":"@) == Some(k as int) && k + 2 <= s.len(),
            None => first_match(s@, "\":"@) is None,
        },
{
    proof {
        reveal_strlit("\":");
    }
    let needle = chars_of("\":");
    match find_from(s, &needle, 0) {
        Some(k) => {
            assert(is_first_match(s@, "\":"@, k as int));
            proof {
                let c = choose|i: int| is_first_match(s@, "\":"@, i);
                lemma_first_match_unique(s@, "\":"@, c, k as int);
            }
            Some(k)
        },
        None => {
            assert(!exists|i: int| is_first_match(s@, "\":"@, i));
            None
        },
    }
}

fn skip_chars(s: &[char], from: usize) -> (out: Vec<char>)
    requires
        from <= s@.len(),
    ensures
        out@ == s@.skip(from as int),
{
    let mut out: Vec<char> = Vec::new();
    let mut i = from;
    while i < s.len()
        invariant
            from <= i <= s@.len(),
            out@ == s@.subrange(from as int, i as int),
        decreases s@.len() - i,
    {
        out.push(s[i]);
        i += 1;
        assert(out@ =~= s@.subrange(from as int, i as int));
    }
    out
}

/// The key of a left-trimmed JSON line, if it has one with a value on the
/// same line.
fn key_of_line(trimmed_line: &[char]) -> (key: Option<Vec<char>>)
    ensures
        match key {
            Some(k) => json_line_key_spec(trimmed_line@) == Some(k@),
            None => json_line_key_spec(trimmed_line@) is None,
        },
{
    if trimmed_line.len() == 0 || trimmed_line[0] != '"' {
        return None;
    }
    let rest = skip_chars(trimmed_line, 1);
    assert(rest@ =~= trimmed_line@.drop_first());
    match first_key_colon(&rest) {
        Some(k) => {
            assert(occurs_at(rest@, "\":"@, k as int));
            let tail = skip_chars(&rest, k + 2);
            let value = trim_start_chars(&tail);
            if value.len() == 0 {
                None
            } else {
                let mut out: Vec<char> = Vec::new();
                let mut i: usize = 0;
                while i < k
                    invariant
                        i <= k <= rest@.len(),
                        out@ == rest@.take(i as int),
                    decreases k - i,
                {
                    out.push(rest[i]);
                    i += 1;
                    assert(out@ =~= rest@.take(i as int));
                }
                Some(out)
            }
        },
        None => None,
    }
}

/// Whether a left-trimmed JSON line's value opens an object or array.
fn line_opens_container(trimmed_line: &[char]) -> (b: bool)
    ensures
        b == opens_container_spec(trimmed_line@),
{
    match first_key_colon(trimmed_line) {
        Some(k) => {
            assert(occurs_at(trimmed_line@, "\":"@, k as int));
            let tail = skip_chars(trimmed_line, k + 2);
            let value = trim_start_chars(&tail);
            value.len() > 0 && (value[0] == '{' || value[0] == '[')
        },
        None => false,
    }
}

/// Number of `}` and `]` that start `s`.
pub open spec fn leading_closers(s: Seq<char>) -> nat
    decreases s.len(),
{
    if s.len() > 0 && (s[0] == '}' || s[0] == ']') {
        1 + leading_closers(s.drop_first())
    } else {
        0
    }
}

/// `stack` with up to `n` innermost entries removed.
pub open spec fn pop_n(stack: Seq<Seq<char>>, n: nat) -> Seq<Seq<char>> {
    if n >= stack.len() {
        Seq::empty()
    } else {
        stack.take(stack.len() - n)
    }
}

/// The open containers after reading one more line.
pub open spec fn stack_step(stack: Seq<Seq<char>>, line: Seq<char>) -> Seq<Seq<char>> {
    let t = trim_start(line);
    let st = pop_n(stack, leading_closers(t));
    match json_line_key_spec(t) {
        Some(k) => if opens_container_spec(t) {
            st.push(k)
        } else {
            st
        },
        None => st,
    }
}

/// The keys of the containers open before line `i`.
pub open spec fn stack_before(lines: Seq<Seq<char>>, i: nat) -> Seq<Seq<char>>
    decreases i,
{
    if i == 0 || i > lines.len() {
        Seq::empty()
    } else {
        stack_step(stack_before(lines, (i - 1) as nat), lines[i - 1])
    }
}

/// Line `i` holds the key at `path`.
pub open spec fn path_hit(lines: Seq<Seq<char>>, i: int, path: Seq<Seq<char>>) -> bool {
    let t = trim_start(lines[i]);
    match json_line_key_spec(t) {
        Some(k) => pop_n(stack_before(lines, i as nat), leading_closers(t)).push(k) == path,
        None => false,
    }
}

/// Line `i` is the first that holds the key at `path`.
pub open spec fn is_first_hit(lines: Seq<Seq<char>>, path: Seq<Seq<char>>, i: int) -> bool {
    &&& 0 <= i < lines.len()
    &&& path_hit(lines, i, path)
    &&& forall|j: int| 0 <= j < i ==> !#[trigger] path_hit(lines, j, path)
}

/// The first line that holds the key at `path`, if any.
pub open spec fn first_hit(lines: Seq<Seq<char>>, path: Seq<Seq<char>>) -> Option<int> {
    if exists|i: int| is_first_hit(lines, path, i) {
        Some(choose|i: int| is_first_hit(lines, path, i))
    } else {
        None
    }
}

proof fn lemma_first_hit_is(lines: Seq<Seq<char>>, path: Seq<Seq<char>>, i: int)
    requires
        is_first_hit(lines, path, i),
    ensures
        first_hit(lines, path) == Some(i),
{
    let c = choose|c: int| is_first_hit(lines, path, c);
    assert(is_first_hit(lines, path, c));
    if c < i {
        assert(!path_hit(lines, c, path));
    } else if i < c {
        assert(!path_hit(lines, i, path));
    }
}

fn count_leading_closers(s: &[char]) -> (n: usize)
    ensures
        n == leading_closers(s@),
{
    let mut i: usize = 0;
    assert(s@.skip(0) =~= s@);
    while i < s.len() && (s[i] == '}' || s[i] == ']')
        invariant
            i <= s@.len(),
            forall|j: int| 0 <= j < i ==> (s@[j] == '}' || s@[j] == ']'),
            leading_closers(s@) == i + leading_closers(s@.skip(i as int)),
        decreases s@.len() - i,
    {
        assert(s@.skip(i as int).drop_first() =~= s@.skip(i + 1));
        i += 1;
    }
    n_closers_done(s, i)
}

fn n_closers_done(s: &[char], i: usize) -> (n: usize)
    requires
        i <= s@.len(),
        leading_closers(s@) == i + leading_closers(s@.skip(i as int)),
        i == s@.len() || !(s@[i as int] == '}' || s@[i as int] == ']'),
    ensures
        n == leading_closers(s@),
{
    if i < s.len() {
        assert(s@.skip(i as int)[0] == s@[i as int]);
    }
    i
}

fn pop_stack(stack: &mut Vec<Vec<char>>, n: usize)
    ensures
        views(final(stack)@) == pop_n(views(old(stack)@), n as nat),
{
    let ghost start = views(stack@);
    let keep = if n >= stack.len() {
        0
    } else {
        stack.len() - n
    };
    while stack.len() > keep
        invariant
            keep <= stack@.len() <= start.len(),
            views(stack@) == start.take(stack@.len() as int),
            keep == if n >= start.len() { 0 } else { start.len() - n },
        decreases stack@.len(),
    {
        stack.pop();
        assert(views(stack@) =~= start.take(stack@.len() as int));
    }
    assert(views(stack@) =~= pop_n(start, n as nat));
}

/// Whether the open-container keys followed by `key` spell `path`.
fn candidate_matches(stack: &Vec<Vec<char>>, key: &Vec<char>, path: &[String]) -> (b: bool)
    ensures
        b == (views(stack@).push(key@) == path_views(path@)),
{
    let ghost want = path_views(path@);
    if path.len() == 0 || stack.len() != path.len() - 1 {
        assert(views(stack@).push(key@).len() != want.len());
        return false;
    }
    let mut i: usize = 0;
    while i < stack.len()
        invariant
            i <= stack@.len(),
            stack@.len() + 1 == path@.len(),
            want == path_views(path@),
            forall|j: int| 0 <= j < i ==> stack@[j]@ == path@[j]@,
        decreases stack@.len() - i,
    {
        let p = chars_of(path[i].as_str());
        if !chars_eq(stack[i].as_slice(), &p) {
            assert(views(stack@).push(key@)[i as int] != want[i as int]);
            return false;
        }
        i += 1;
    }
    let last = chars_of(path[i].as_str());
    let r = chars_eq(key.as_slice(), &last);
    if r {
        assert(views(stack@).push(key@) =~= want);
    } else {
        assert(views(stack@).push(key@)[i as int] != want[i as int]);
    }
    r
}

pub open spec fn path_views(path: Seq<String>) -> Seq<Seq<char>> {
    path.map_values(|p: String| p@)
}

pub open spec fn line_views(lines: Seq<&str>) -> Seq<Seq<char>> {
    lines.map_values(|l: &str| l@)
}

/// The key of a left-trimmed JSON line `"key": value`, if its value is on
/// the same line.
pub fn json_line_key(trimmed_line: &str) -> (key: Option<String>)
    ensures
        match key {
            Some(k) => json_line_key_spec(trimmed_line@) == Some(k@),
            None => json_line_key_spec(trimmed_line@) is None,
        },
{
    match key_of_line(&chars_of(trimmed_line)) {
        Some(k) => Some(string_of(&k)),
        None => None,
    }
}

/// Whether the value on a left-trimmed JSON line opens an object or array.
pub fn json_line_opens_container(trimmed_line: &str) -> (b: bool)
    ensures
        b == opens_container_spec(trimmed_line@),
{
    line_opens_container(&chars_of(trimmed_line))
}

/// The first line holding the key at `path` in pretty-printed JSON
/// `lines`, tracking which objects and arrays are open.
pub fn find_json_path_line(lines: &[&str], path: &[String]) -> (r: Option<usize>)
    ensures
        match r {
            Some(i) => i < lines@.len() && path_hit(line_views(lines@), i as int, path_views(path@))
                && forall|j: int|
                0 <= j < i ==> !#[trigger] path_hit(line_views(lines@), j, path_views(path@)),
            None => forall|j: int|
                0 <= j < lines@.len() ==> !#[trigger] path_hit(line_views(lines@), j, path_views(path@)),
        },
        match r {
            Some(i) => first_hit(line_views(lines@), path_views(path@)) == Some(i as int),
            None => first_hit(line_views(lines@), path_views(path@)) is None,
        },
{
    let ghost lv = line_views(lines@);
    let ghost want = path_views(path@);
    let mut stack: Vec<Vec<char>> = Vec::new();
    let mut idx: usize = 0;
    while idx < lines.len()
        invariant
            idx <= lines@.len(),
            lv == line_views(lines@),
            want == path_views(path@),
            views(stack@) == stack_before(lv, idx as nat),
            forall|j: int| 0 <= j < idx ==> !#[trigger] path_hit(lv, j, want),
        decreases lines@.len() - idx,
    {
        let raw = chars_of(lines[idx]);
        assert(raw@ == lv[idx as int]);
        let trimmed = trim_start_chars(&raw);
        let closing = count_leading_closers(&trimmed);
        pop_stack(&mut stack, closing);
        let key = key_of_line(&trimmed);
        match key {
            Some(k) => {
                if candidate_matches(&stack, &k, path) {
                    proof {
                        assert(path_hit(lv, idx as int, want));
                        lemma_first_hit_is(lv, want, idx as int);
                    }
                    return Some(idx);
                }
                if line_opens_container(&trimmed) {
                    stack.push(k);
                    assert(views(stack@) =~= views(stack@).drop_last().push(k@));
                }
            },
            None => {},
        }
        idx += 1;
        assert(views(stack@) =~= stack_before(lv, idx as nat));
    }
    proof {
        if exists|i: int| is_first_hit(lv, want, i) {
            let i = choose|i: int| is_first_hit(lv, want, i);
            assert(path_hit(lv, i, want));
        }
    }
    None
}

} // verus!
