//! JSON values as the TUI shows them: redacting credentials, and finding
//! the lines of a pretty-printed config that come from the common snippet.
use vstd::prelude::*;

use std::collections::BTreeSet;

use crate::json_lines::{find_json_path_line, first_hit, line_views, path_views};
use crate::shared::{is_sensitive_display_key, is_sensitive_key_spec};
use crate::sessions::split_lines;
use crate::text::{chars_eq_str, chars_of, string_of, trim, trim_chars};
use crate::theme::AppType;

verus! {

/// A JSON value. Objects keep their entries in order; those that
/// serde_json parses have each key once, in ascending order.
#[derive(Debug, PartialEq, Eq)]
pub enum JsonValue {
    Null,
    Bool(bool),
    /// A number, as its JSON text.
    Number(String),
    String(String),
    Array(Vec<JsonValue>),
    Object(Vec<(String, JsonValue)>),
}

/// A copy of `s` with the same text.
fn copy_string(s: &String) -> (out: String)
    ensures
        out@ == s@,
{
    string_of(&chars_of(s.as_str()))
}

/// `r` is the leaf `v`, copied: the same kind with the same value.
pub open spec fn same_leaf(v: JsonValue, r: JsonValue) -> bool {
    match (v, r) {
        (JsonValue::Null, JsonValue::Null) => true,
        (JsonValue::Bool(a), JsonValue::Bool(b)) => a == b,
        (JsonValue::Number(a), JsonValue::Number(b)) => a@ == b@,
        (JsonValue::String(a), JsonValue::String(b)) => a@ == b@,
        _ => false,
    }
}

/// `r` is `v` with every value inside it replaced by the placeholder
/// string `[redacted]`, keeping the shape of objects and arrays, and nulls.
pub open spec fn payload_redacted(v: JsonValue, r: JsonValue) -> bool
    decreases v,
{
    match v {
        JsonValue::Object(es) => match r {
            JsonValue::Object(rs) => es@.len() == rs@.len() && forall|i: int|
                0 <= i < es@.len() ==> (#[trigger] rs@[i]).0@ == es@[i].0@ && payload_redacted(
                    es@[i].1,
                    rs@[i].1,
                ),
            _ => false,
        },
        JsonValue::Array(xs) => match r {
            JsonValue::Array(ys) => xs@.len() == ys@.len() && forall|i: int|
                0 <= i < xs@.len() ==> payload_redacted(xs@[i], #[trigger] ys@[i]),
            _ => false,
        },
        JsonValue::Null => r is Null,
        _ => r matches JsonValue::String(s) && s@ == "[redacted]"@,
    }
}

/// `r` is `v` with the value of every sensitive key (see
/// `is_sensitive_display_key`), at any depth, redacted as a whole.
pub open spec fn sensitive_redacted(v: JsonValue, r: JsonValue) -> bool
    decreases v,
{
    match v {
        JsonValue::Object(es) => match r {
            JsonValue::Object(rs) => es@.len() == rs@.len() && forall|i: int|
                0 <= i < es@.len() ==> (#[trigger] rs@[i]).0@ == es@[i].0@ && if is_sensitive_key_spec(
                    es@[i].0@,
                ) {
                    payload_redacted(es@[i].1, rs@[i].1)
                } else {
                    sensitive_redacted(es@[i].1, rs@[i].1)
                },
            _ => false,
        },
        JsonValue::Array(xs) => match r {
            JsonValue::Array(ys) => xs@.len() == ys@.len() && forall|i: int|
                0 <= i < xs@.len() ==> sensitive_redacted(xs@[i], #[trigger] ys@[i]),
            _ => false,
        },
        _ => same_leaf(v, r),
    }
}

/// No value is left in `r`: its leaves are nulls and placeholders.
pub open spec fn hides_all_values(r: JsonValue) -> bool
    decreases r,
{
    match r {
        JsonValue::Object(rs) => forall|i: int| 0 <= i < rs@.len() ==> hides_all_values(#[trigger] rs@[i].1),
        JsonValue::Array(ys) => forall|i: int| 0 <= i < ys@.len() ==> hides_all_values(#[trigger] ys@[i]),
        JsonValue::Null => true,
        JsonValue::String(s) => s@ == "[redacted]"@,
        _ => false,
    }
}

/// Under every sensitive key of `r`, at any depth, no value is left.
pub open spec fn secrets_hidden(r: JsonValue) -> bool
    decreases r,
{
    match r {
        JsonValue::Object(rs) => forall|i: int|
            0 <= i < rs@.len() ==> if is_sensitive_key_spec((#[trigger] rs@[i]).0@) {
                hides_all_values(rs@[i].1)
            } else {
                secrets_hidden(rs@[i].1)
            },
        JsonValue::Array(ys) => forall|i: int| 0 <= i < ys@.len() ==> secrets_hidden(#[trigger] ys@[i]),
        _ => true,
    }
}

/// A redacted payload holds no value: only nulls and placeholders.
pub proof fn law_redacted_payload_hides_values(v: JsonValue, r: JsonValue)
    requires
        payload_redacted(v, r),
    ensures
        hides_all_values(r),
    decreases v,
{
    match v {
        JsonValue::Object(es) => {
            let rs = r->Object_0;
            assert forall|i: int| 0 <= i < rs@.len() implies hides_all_values(#[trigger] rs@[i].1) by {
                assert(payload_redacted(es@[i].1, rs@[i].1));
                assert(decreases_to!(v => v->Object_0));
                assert(decreases_to!(es => es@));
                assert(decreases_to!(es@ => es@[i]));
                assert(decreases_to!(es@[i] => es@[i].1));
                law_redacted_payload_hides_values(es@[i].1, rs@[i].1);
            }
        },
        JsonValue::Array(xs) => {
            let ys = r->Array_0;
            assert forall|i: int| 0 <= i < ys@.len() implies hides_all_values(#[trigger] ys@[i]) by {
                assert(payload_redacted(xs@[i], ys@[i]));
                assert(decreases_to!(v => v->Array_0));
                assert(decreases_to!(xs => xs@));
                assert(decreases_to!(xs@ => xs@[i]));
                law_redacted_payload_hides_values(xs@[i], ys@[i]);
            }
        },
        _ => {},
    }
}

/// After redaction no credential is shown: under every sensitive key, at
/// any depth, only nulls and placeholders remain.
pub proof fn law_redaction_hides_secrets(v: JsonValue, r: JsonValue)
    requires
        sensitive_redacted(v, r),
    ensures
        secrets_hidden(r),
    decreases v,
{
    match v {
        JsonValue::Object(es) => {
            let rs = r->Object_0;
            assert forall|i: int| 0 <= i < rs@.len() implies if is_sensitive_key_spec((#[trigger] rs@[i]).0@) {
                hides_all_values(rs@[i].1)
            } else {
                secrets_hidden(rs@[i].1)
            } by {
                assert(decreases_to!(v => v->Object_0));
                assert(decreases_to!(es => es@));
                assert(decreases_to!(es@ => es@[i]));
                assert(decreases_to!(es@[i] => es@[i].1));
                assert(rs@[i].0@ == es@[i].0@);
                if is_sensitive_key_spec(es@[i].0@) {
                    law_redacted_payload_hides_values(es@[i].1, rs@[i].1);
                } else {
                    law_redaction_hides_secrets(es@[i].1, rs@[i].1);
                }
            }
        },
        JsonValue::Array(xs) => {
            let ys = r->Array_0;
            assert forall|i: int| 0 <= i < ys@.len() implies secrets_hidden(#[trigger] ys@[i]) by {
                assert(sensitive_redacted(xs@[i], ys@[i]));
                assert(decreases_to!(v => v->Array_0));
                assert(decreases_to!(xs => xs@));
                assert(decreases_to!(xs@ => xs@[i]));
                law_redaction_hides_secrets(xs@[i], ys@[i]);
            }
        },
        _ => {},
    }
}

/// `a` and `b` hold the same JSON: the same shape, keys and leaves.
pub open spec fn same_json(a: JsonValue, b: JsonValue) -> bool
    decreases a,
{
    match a {
        JsonValue::Object(xs) => match b {
            JsonValue::Object(ys) => xs@.len() == ys@.len() && forall|i: int|
                0 <= i < xs@.len() ==> (#[trigger] ys@[i]).0@ == xs@[i].0@ && same_json(
                    xs@[i].1,
                    ys@[i].1,
                ),
            _ => false,
        },
        JsonValue::Array(xs) => match b {
            JsonValue::Array(ys) => xs@.len() == ys@.len() && forall|i: int|
                0 <= i < xs@.len() ==> same_json(xs@[i], #[trigger] ys@[i]),
            _ => false,
        },
        _ => same_leaf(a, b),
    }
}

proof fn lemma_payload_redaction_stable(v: JsonValue, r1: JsonValue, r2: JsonValue)
    requires
        payload_redacted(v, r1),
        payload_redacted(r1, r2),
    ensures
        same_json(r1, r2),
    decreases v,
{
    match v {
        JsonValue::Object(es) => {
            let rs = r1->Object_0;
            let ts = r2->Object_0;
            assert forall|i: int| 0 <= i < rs@.len() implies (#[trigger] ts@[i]).0@ == rs@[i].0@
                && same_json(rs@[i].1, ts@[i].1) by {
                assert(payload_redacted(es@[i].1, rs@[i].1));
                assert(payload_redacted(rs@[i].1, ts@[i].1));
                assert(decreases_to!(v => v->Object_0));
                assert(decreases_to!(es => es@));
                assert(decreases_to!(es@ => es@[i]));
                assert(decreases_to!(es@[i] => es@[i].1));
                lemma_payload_redaction_stable(es@[i].1, rs@[i].1, ts@[i].1);
            }
        },
        JsonValue::Array(xs) => {
            let ys = r1->Array_0;
            let zs = r2->Array_0;
            assert forall|i: int| 0 <= i < ys@.len() implies same_json(ys@[i], #[trigger] zs@[i]) by {
                assert(payload_redacted(xs@[i], ys@[i]));
                assert(payload_redacted(ys@[i], zs@[i]));
                assert(decreases_to!(v => v->Array_0));
                assert(decreases_to!(xs => xs@));
                assert(decreases_to!(xs@ => xs@[i]));
                lemma_payload_redaction_stable(xs@[i], ys@[i], zs@[i]);
            }
        },
        _ => {},
    }
}

/// Redaction is idempotent: redacting an already redacted value gives the
/// same JSON back.
pub proof fn law_redaction_idempotent(v: JsonValue, r1: JsonValue, r2: JsonValue)
    requires
        sensitive_redacted(v, r1),
        sensitive_redacted(r1, r2),
    ensures
        same_json(r1, r2),
    decreases v,
{
    match v {
        JsonValue::Object(es) => {
            let rs = r1->Object_0;
            let ts = r2->Object_0;
            assert forall|i: int| 0 <= i < rs@.len() implies (#[trigger] ts@[i]).0@ == rs@[i].0@
                && same_json(rs@[i].1, ts@[i].1) by {
                assert(decreases_to!(v => v->Object_0));
                assert(decreases_to!(es => es@));
                assert(decreases_to!(es@ => es@[i]));
                assert(decreases_to!(es@[i] => es@[i].1));
                assert(rs@[i].0@ == es@[i].0@);
                assert(ts@[i].0@ == rs@[i].0@);
                if is_sensitive_key_spec(es@[i].0@) {
                    assert(payload_redacted(es@[i].1, rs@[i].1));
                    assert(payload_redacted(rs@[i].1, ts@[i].1));
                    lemma_payload_redaction_stable(es@[i].1, rs@[i].1, ts@[i].1);
                } else {
                    assert(sensitive_redacted(es@[i].1, rs@[i].1));
                    assert(sensitive_redacted(rs@[i].1, ts@[i].1));
                    law_redaction_idempotent(es@[i].1, rs@[i].1, ts@[i].1);
                }
            }
        },
        JsonValue::Array(xs) => {
            let ys = r1->Array_0;
            let zs = r2->Array_0;
            assert forall|i: int| 0 <= i < ys@.len() implies same_json(ys@[i], #[trigger] zs@[i]) by {
                assert(sensitive_redacted(xs@[i], ys@[i]));
                assert(sensitive_redacted(ys@[i], zs@[i]));
                assert(decreases_to!(v => v->Array_0));
                assert(decreases_to!(xs => xs@));
                assert(decreases_to!(xs@ => xs@[i]));
                law_redaction_idempotent(xs@[i], ys@[i], zs@[i]);
            }
        },
        _ => {},
    }
}

/// A copy of a leaf value.
fn copy_leaf(value: &JsonValue) -> (out: JsonValue)
    requires
        !(value is Object || value is Array),
    ensures
        same_leaf(*value, out),
{
    match value {
        JsonValue::Null => JsonValue::Null,
        JsonValue::Bool(b) => JsonValue::Bool(*b),
        JsonValue::Number(n) => JsonValue::Number(copy_string(n)),
        JsonValue::String(s) => JsonValue::String(copy_string(s)),
        _ => JsonValue::Null,
    }
}

/// Every value inside `value` replaced by `[redacted]`; objects, arrays
/// and nulls keep their shape.
pub fn redact_value_payload(value: &JsonValue) -> (out: JsonValue)
    ensures
        payload_redacted(*value, out),
    decreases value,
{
    match value {
        JsonValue::Object(entries) => {
            let mut out: Vec<(String, JsonValue)> = Vec::new();
            let mut i: usize = 0;
            while i < entries.len()
                invariant
                    i <= entries@.len(),
                    *value == JsonValue::Object(*entries),
                    out@.len() == i,
                    forall|j: int|
                        0 <= j < i ==> (#[trigger] out@[j]).0@ == entries@[j].0@ && payload_redacted(
                            entries@[j].1,
                            out@[j].1,
                        ),
                decreases entries@.len() - i,
            {
                assert(decreases_to!(*value => entries@[i as int].1)) by {
                    assert(decreases_to!(*value => (*value)->Object_0));
                    assert(decreases_to!(*entries => entries@));
                    assert(decreases_to!(entries@ => entries@[i as int]));
                    assert(decreases_to!(entries@[i as int] => entries@[i as int].1));
                }
                let child = redact_value_payload(&entries[i].1);
                out.push((copy_string(&entries[i].0), child));
                i += 1;
            }
            JsonValue::Object(out)
        },
        JsonValue::Array(items) => {
            let mut out: Vec<JsonValue> = Vec::new();
            let mut i: usize = 0;
            while i < items.len()
                invariant
                    i <= items@.len(),
                    *value == JsonValue::Array(*items),
                    out@.len() == i,
                    forall|j: int| 0 <= j < i ==> payload_redacted(items@[j], #[trigger] out@[j]),
                decreases items@.len() - i,
            {
                assert(decreases_to!(*value => items@[i as int])) by {
                    assert(decreases_to!(*value => (*value)->Array_0));
                    assert(decreases_to!(*items => items@));
                    assert(decreases_to!(items@ => items@[i as int]));
                }
                let child = redact_value_payload(&items[i]);
                out.push(child);
                i += 1;
            }
            JsonValue::Array(out)
        },
        JsonValue::Null => JsonValue::Null,
        _ => JsonValue::String(string_of(&chars_of("[redacted]"))),
    }
}

/// `value` with the values of sensitive keys redacted (see
/// `redact_value_payload`), at any depth.
pub fn redact_sensitive_json(value: &JsonValue) -> (out: JsonValue)
    ensures
        sensitive_redacted(*value, out),
    decreases value,
{
    match value {
        JsonValue::Object(entries) => {
            let mut out: Vec<(String, JsonValue)> = Vec::new();
            let mut i: usize = 0;
            while i < entries.len()
                invariant
                    i <= entries@.len(),
                    *value == JsonValue::Object(*entries),
                    out@.len() == i,
                    forall|j: int|
                        0 <= j < i ==> (#[trigger] out@[j]).0@ == entries@[j].0@ && if is_sensitive_key_spec(
                            entries@[j].0@,
                        ) {
                            payload_redacted(entries@[j].1, out@[j].1)
                        } else {
                            sensitive_redacted(entries@[j].1, out@[j].1)
                        },
                decreases entries@.len() - i,
            {
                assert(decreases_to!(*value => entries@[i as int].1)) by {
                    assert(decreases_to!(*value => (*value)->Object_0));
                    assert(decreases_to!(*entries => entries@));
                    assert(decreases_to!(entries@ => entries@[i as int]));
                    assert(decreases_to!(entries@[i as int] => entries@[i as int].1));
                }
                let child = if is_sensitive_display_key(entries[i].0.as_str()) {
                    redact_value_payload(&entries[i].1)
                } else {
                    redact_sensitive_json(&entries[i].1)
                };
                out.push((copy_string(&entries[i].0), child));
                i += 1;
            }
            JsonValue::Object(out)
        },
        JsonValue::Array(items) => {
            let mut out: Vec<JsonValue> = Vec::new();
            let mut i: usize = 0;
            while i < items.len()
                invariant
                    i <= items@.len(),
                    *value == JsonValue::Array(*items),
                    out@.len() == i,
                    forall|j: int| 0 <= j < i ==> sensitive_redacted(items@[j], #[trigger] out@[j]),
                decreases items@.len() - i,
            {
                assert(decreases_to!(*value => items@[i as int])) by {
                    assert(decreases_to!(*value => (*value)->Array_0));
                    assert(decreases_to!(*items => items@));
                    assert(decreases_to!(items@ => items@[i as int]));
                }
                let child = redact_sensitive_json(&items[i]);
                out.push(child);
                i += 1;
            }
            JsonValue::Array(out)
        },
        _ => copy_leaf(value),
    }
}

/// The keys of an object, in its order; nothing for any other value.
pub fn sorted_json_object_keys(value: &JsonValue) -> (keys: Vec<String>)
    ensures
        match value {
            JsonValue::Object(es) => keys@.len() == es@.len() && forall|i: int|
                0 <= i < es@.len() ==> (#[trigger] keys@[i])@ == es@[i].0@,
            _ => keys@.len() == 0,
        },
{
    let mut keys: Vec<String> = Vec::new();
    if let JsonValue::Object(entries) = value {
        let mut i: usize = 0;
        while i < entries.len()
            invariant
                i <= entries@.len(),
                keys@.len() == i,
                forall|j: int| 0 <= j < i ==> (#[trigger] keys@[j])@ == entries@[j].0@,
            decreases entries@.len() - i,
        {
            keys.push(copy_string(&entries[i].0));
            i += 1;
        }
    }
    keys
}

/// Position of the first entry of `entries` under `key`.
pub open spec fn key_index(entries: Seq<(String, JsonValue)>, key: Seq<char>) -> Option<int> {
    if exists|i: int| is_first_key(entries, key, i) {
        Some(choose|i: int| is_first_key(entries, key, i))
    } else {
        None
    }
}

pub open spec fn is_first_key(entries: Seq<(String, JsonValue)>, key: Seq<char>, i: int) -> bool {
    &&& 0 <= i < entries.len()
    &&& entries[i].0@ == key
    &&& forall|j: int| 0 <= j < i ==> (#[trigger] entries[j]).0@ != key
}

/// The value under `key` when `v` is an object that has it.
pub open spec fn lookup_key(v: JsonValue, key: Seq<char>) -> Option<JsonValue> {
    match v {
        JsonValue::Object(es) => match key_index(es@, key) {
            Some(i) => Some(es@[i].1),
            None => None,
        },
        _ => None,
    }
}

pub proof fn lemma_key_index_is(entries: Seq<(String, JsonValue)>, key: Seq<char>, i: int)
    requires
        is_first_key(entries, key, i),
    ensures
        key_index(entries, key) == Some(i),
{
    let c = choose|c: int| is_first_key(entries, key, c);
    assert(is_first_key(entries, key, c));
    if c < i {
        assert(entries[c].0@ != key);
    } else if i < c {
        assert(entries[i].0@ != key);
    }
}

pub proof fn lemma_lookup_decreases(v: JsonValue, key: Seq<char>)
    requires
        lookup_key(v, key) is Some,
    ensures
        decreases_to!(v => lookup_key(v, key)->0),
{
    let es = v->Object_0;
    let i = key_index(es@, key)->0;
    assert(is_first_key(es@, key, i));
    assert(decreases_to!(v => v->Object_0));
    assert(decreases_to!(es => es@));
    assert(decreases_to!(es@ => es@[i]));
    assert(decreases_to!(es@[i] => es@[i].1));
}

/// The value under `key` in `value`, when it is an object that has it.
fn object_get<'a>(value: &'a JsonValue, key: &str) -> (r: Option<&'a JsonValue>)
    ensures
        match r {
            Some(c) => lookup_key(*value, key@) == Some(*c),
            None => lookup_key(*value, key@) is None,
        },
{
    match value {
        JsonValue::Object(entries) => {
            let k = chars_of(key);
            let mut i: usize = 0;
            while i < entries.len()
                invariant
                    i <= entries@.len(),
                    *value == JsonValue::Object(*entries),
                    k@ == key@,
                    forall|j: int| 0 <= j < i ==> (#[trigger] entries@[j]).0@ != key@,
                decreases entries@.len() - i,
            {
                if chars_eq_str(&k, entries[i].0.as_str()) {
                    proof {
                        assert(is_first_key(entries@, key@, i as int));
                        lemma_key_index_is(entries@, key@, i as int);
                    }
                    return Some(&entries[i].1);
                }
                i += 1;
            }
            proof {
                if exists|c: int| is_first_key(entries@, key@, c) {
                    let c = choose|c: int| is_first_key(entries@, key@, c);
                    assert(entries@[c].0@ == key@);
                }
            }
            None
        },
        _ => None,
    }
}

/// The line holding `path`, as a set (empty when no line does).
pub open spec fn found_line(lines: Seq<Seq<char>>, path: Seq<Seq<char>>) -> Set<usize> {
    match first_hit(lines, path) {
        Some(i) => set![i as usize],
        None => Set::empty(),
    }
}

pub open spec fn entry_count(v: JsonValue) -> nat {
    match v {
        JsonValue::Object(es) => es@.len(),
        _ => 0,
    }
}

/// The lines to highlight for the first `n` keys of `common`, an object of
/// values taken from a common snippet and merged into `full`: for each of
/// its keys that `full` has too, the line of that key (for a leaf or an
/// empty object), or the lines of the keys within it.
pub open spec fn marked_lines(
    full: JsonValue,
    common: JsonValue,
    path: Seq<Seq<char>>,
    lines: Seq<Seq<char>>,
    n: nat,
) -> Set<usize>
    decreases common, n,
{
    match common {
        JsonValue::Object(es) => if n == 0 || n > es@.len() {
            Set::empty()
        } else {
            let prev = marked_lines(full, common, path, lines, (n - 1) as nat);
            let key = es@[n - 1].0@;
            match lookup_key(common, key) {
                None => prev,
                Some(child) => match lookup_key(full, key) {
                    None => prev,
                    Some(full_child) => {
                        let p = path.push(key);
                        match child {
                            JsonValue::Object(ces) => if ces@.len() == 0 {
                                prev.union(found_line(lines, p))
                            } else {
                                proof {
                                    lemma_lookup_decreases(common, key);
                                }
                                prev.union(marked_lines(full_child, child, p, lines, ces@.len()))
                            },
                            _ => prev.union(found_line(lines, p)),
                        }
                    },
                },
            }
        },
        _ => Set::empty(),
    }
}

/// Adds `line` to the set.
fn insert_line(highlighted: &mut BTreeSet<usize>, line: usize)
    ensures
        final(highlighted)@ == old(highlighted)@.insert(line),
{
    broadcast use vstd::laws_cmp::group_laws_cmp;

    highlighted.insert(line);
}

/// Adds to `highlighted` the lines of pretty-printed `lines` (of `full`)
/// that hold values of `common` (see `marked_lines`); `path` is where
/// `common` sits in `full`, and comes back unchanged.
pub fn mark_common_json_lines(
    full: &JsonValue,
    common: &JsonValue,
    path: &mut Vec<String>,
    lines: &[&str],
    highlighted: &mut BTreeSet<usize>,
)
    ensures
        final(path)@ == old(path)@,
        final(highlighted)@ == old(highlighted)@.union(
            marked_lines(*full, *common, path_views(old(path)@), line_views(lines@), entry_count(*common)),
        ),
    decreases common,
{
    let is_object = match common {
        JsonValue::Object(_) => true,
        _ => false,
    };
    if !is_object {
        assert(old(highlighted)@.union(Set::empty()) =~= highlighted@);
        return;
    }
    let keys = sorted_json_object_keys(common);
    let ghost lv = line_views(lines@);
    let ghost pv = path_views(path@);
    let ghost path0 = path@;
    let ghost h0 = highlighted@;
    let mut i: usize = 0;
    assert(h0.union(Set::empty()) =~= h0);
    while i < keys.len()
        invariant
            common is Object,
            keys@.len() == entry_count(*common),
            forall|j: int| 0 <= j < keys@.len() ==> (#[trigger] keys@[j])@ == common->Object_0@[j].0@,
            i <= keys@.len(),
            path@ == path0,
            lv == line_views(lines@),
            pv == path_views(path0),
            highlighted@ == h0.union(marked_lines(*full, *common, pv, lv, i as nat)),
        decreases keys@.len() - i,
    {
        let ghost before = highlighted@;
        let ghost key = keys@[i as int]@;
        let ghost prev = marked_lines(*full, *common, pv, lv, i as nat);
        assert(key == common->Object_0@[i as int].0@);
        let common_child = object_get(common, keys[i].as_str());
        if let Some(common_child) = common_child {
            let full_child = object_get(full, keys[i].as_str());
            if let Some(full_child) = full_child {
                path.push(copy_string(&keys[i]));
                let ghost p = path_views(path@);
                assert(p =~= pv.push(key));
                let key_line = find_json_path_line(lines, path.as_slice());
                let leaf = match common_child {
                    JsonValue::Object(ces) => ces.len() == 0,
                    _ => true,
                };
                if leaf {
                    if let Some(line) = key_line {
                        insert_line(highlighted, line);
                    }
                    assert(highlighted@ =~= before.union(found_line(lv, p)));
                } else {
                    proof {
                        lemma_lookup_decreases(*common, key);
                    }
                    mark_common_json_lines(full_child, common_child, path, lines, highlighted);
                }
                let _ = path.pop();
                assert(path@ =~= path0);
            }
        }
        i += 1;
        assert(highlighted@ =~= h0.union(marked_lines(*full, *common, pv, lv, i as nat)));
    }
}

/// `line` without the `\r` of a `\r\n` ending.
pub open spec fn strip_cr(line: Seq<char>) -> Seq<char> {
    if line.len() > 0 && line.last() == '\r' {
        line.drop_last()
    } else {
        line
    }
}

/// The lines of `s` as `str::lines` yields them: split at `\n` (a `\r`
/// before it dropped), with no empty line after a final `\n`.
pub open spec fn text_lines(s: Seq<char>) -> Seq<Seq<char>> {
    let parts = split_lines(s);
    let ended = parts.take(parts.len() - 1).map_values(|l: Seq<char>| strip_cr(l));
    if parts.last().len() == 0 {
        ended
    } else {
        ended.push(parts.last())
    }
}

/// The lines of `text` (see `text_lines`).
pub fn lines_of(text: &str) -> (out: Vec<String>)
    ensures
        out@.len() == text_lines(text@).len(),
        forall|i: int| 0 <= i < out@.len() ==> (#[trigger] out@[i])@ == text_lines(text@)[i],
{
    let chars = chars_of(text);
    let mut ended: Vec<String> = Vec::new();
    let mut current: Vec<char> = Vec::new();
    let ghost mut pieces: Seq<Seq<char>> = Seq::empty();
    let mut i: usize = 0;
    while i < chars.len()
        invariant
            i <= chars@.len(),
            pieces.push(current@) == split_lines(chars@.take(i as int)),
            ended@.len() == pieces.len(),
            forall|j: int| 0 <= j < pieces.len() ==> (#[trigger] ended@[j])@ == strip_cr(pieces[j]),
        decreases chars@.len() - i,
    {
        let c = chars[i];
        let ghost prev = pieces.push(current@);
        assert(chars@.take(i + 1).drop_last() =~= chars@.take(i as int));
        if c == '\n' {
            let n = current.len();
            let line = if n > 0 && current[n - 1] == '\r' {
                let mut kept: Vec<char> = Vec::new();
                let mut k: usize = 0;
                while k < n - 1
                    invariant
                        k <= n - 1,
                        n == current@.len(),
                        kept@ == current@.take(k as int),
                    decreases n - 1 - k,
                {
                    kept.push(current[k]);
                    k += 1;
                    assert(kept@ =~= current@.take(k as int));
                }
                assert(kept@ =~= current@.drop_last());
                string_of(&kept)
            } else {
                string_of(&current)
            };
            proof {
                pieces = pieces.push(current@);
            }
            ended.push(line);
            current = Vec::new();
            assert(pieces.push(current@) =~= prev.push(Seq::empty()));
        } else {
            current.push(c);
            assert(pieces.push(current@) =~= prev.update(prev.len() - 1, prev.last().push(c)));
        }
        i += 1;
    }
    assert(chars@.take(chars@.len() as int) =~= chars@);
    let ghost parts = split_lines(chars@);
    assert(parts.take(parts.len() - 1) =~= pieces);
    if current.len() > 0 {
        ended.push(string_of(&current));
    }
    ended
}

pub open spec fn is_json_object(v: Option<JsonValue>) -> bool {
    v matches Some(JsonValue::Object(_))
}

/// `out` is the common snippet `snippet`, parsed as `parsed`, as it is
/// merged into `app`'s config (see `common_json_preview_value`).
pub open spec fn merged_snippet_of(app: AppType, snippet: Seq<char>, parsed: Option<JsonValue>, out: Option<JsonValue>) -> bool {
    if trim(snippet).len() == 0 {
        out is None
    } else if app == AppType::Claude {
        out == if is_json_object(parsed) {
            parsed
        } else {
            None
        }
    } else if app == AppType::Gemini {
        match parsed {
            Some(env) => out matches Some(JsonValue::Object(es)) && es@.len() == 1 && es@[0].0@ == "env"@
                && es@[0].1 == env,
            None => out is None,
        }
    } else {
        out is None
    }
}

/// The common config snippet as it is merged into an app's config, for
/// highlighting (see `merged_snippet_of`): the snippet itself, or for Gemini the
/// snippet as the `env` object; `None` for a blank snippet, for apps that
/// merge no JSON snippet, and when the result is not an object. `parsed_snippet` is the snippet parsed as
/// JSON (`None` when it is not JSON).
pub fn common_json_preview_value(
    app_type: &AppType,
    common_snippet: &str,
    parsed_snippet: Option<JsonValue>,
) -> (out: Option<JsonValue>)
    ensures
        merged_snippet_of(*app_type, common_snippet@, parsed_snippet, out),
{
    proof {
        reveal_strlit("env");
    }
    let snippet = chars_of(common_snippet);
    if trim_chars(&snippet).len() == 0 {
        return None;
    }
    match app_type {
        AppType::Claude => match parsed_snippet {
            Some(JsonValue::Object(es)) => Some(JsonValue::Object(es)),
            _ => None,
        },
        AppType::Gemini => match parsed_snippet {
            Some(env) => {
                let mut es: Vec<(String, JsonValue)> = Vec::new();
                es.push((string_of(&chars_of("env")), env));
                Some(JsonValue::Object(es))
            },
            None => None,
        },
        _ => None,
    }
}

/// The lines of the pretty-printed config `json_text` (of `json_value`)
/// that come from the common snippet, when it is included (see
/// `common_json_preview_value` and `mark_common_json_lines`).
pub fn common_json_preview_highlight_lines(
    app_type: &AppType,
    json_value: &JsonValue,
    json_text: &str,
    common_snippet: &str,
    include_common_config: bool,
    parsed_snippet: Option<JsonValue>,
) -> (highlighted: BTreeSet<usize>)
    ensures
        !include_common_config ==> highlighted@ == Set::<usize>::empty(),
        include_common_config ==> exists|common: Option<JsonValue>|
            merged_snippet_of(*app_type, common_snippet@, parsed_snippet, common) && highlighted@ == match common {
                None => Set::<usize>::empty(),
                Some(c) => marked_lines(*json_value, c, Seq::empty(), text_lines(json_text@), entry_count(c)),
            },
{
    let mut highlighted: BTreeSet<usize> = BTreeSet::new();
    if !include_common_config {
        return highlighted;
    }
    let common = common_json_preview_value(app_type, common_snippet, parsed_snippet);
    let ghost merged = common;
    match common {
        None => {
            assert(merged_snippet_of(*app_type, common_snippet@, parsed_snippet, merged));
            highlighted
        },
        Some(common) => {
            let owned = lines_of(json_text);
            let mut lines: Vec<&str> = Vec::new();
            let mut i: usize = 0;
            while i < owned.len()
                invariant
                    i <= owned@.len(),
                    lines@.len() == i,
                    forall|j: int| 0 <= j < i ==> (#[trigger] lines@[j])@ == owned@[j]@,
                decreases owned@.len() - i,
            {
                lines.push(owned[i].as_str());
                i += 1;
            }
            assert(line_views(lines@) =~= text_lines(json_text@));
            let mut path: Vec<String> = Vec::new();
            assert(path_views(path@) =~= Seq::<Seq<char>>::empty());
            mark_common_json_lines(json_value, &common, &mut path, lines.as_slice(), &mut highlighted);
            assert(highlighted@ =~= Set::<usize>::empty().union(
                marked_lines(*json_value, common, Seq::empty(), text_lines(json_text@), entry_count(common)),
            ));
            assert(merged_snippet_of(*app_type, common_snippet@, parsed_snippet, merged));
            highlighted
        },
    }
}

} // verus!
