//! The navigation pane's labels.
use vstd::prelude::*;

use crate::json_lines::{first_match, is_first_match, lemma_first_match_unique};
use crate::text::{chars_of, find_from, occurs_at, string_of};

verus! {

/// A navigation label `icon text` split at its first space into the icon
/// and the text; a label without a space is all text.
pub open spec fn split_nav_label_spec(label: Seq<char>) -> (Seq<char>, Seq<char>) {
    match first_match(label, seq![' ']) {
        Some(k) => (label.take(k), label.skip(k + 1)),
        None => (Seq::empty(), label),
    }
}

/// Splits a navigation label into its icon and its text at the first space.
pub fn split_nav_label(label: &str) -> (parts: (String, String))
    ensures
        (parts.0@, parts.1@) == split_nav_label_spec(label@),
{
    let chars = chars_of(label);
    let mut space: Vec<char> = Vec::new();
    space.push(' ');
    assert(space@ =~= seq![' ']);
    match find_from(&chars, &space, 0) {
        Some(k) => {
            proof {
                assert(is_first_match(chars@, space@, k as int));
                let c = choose|i: int| is_first_match(chars@, space@, i);
                lemma_first_match_unique(chars@, space@, c, k as int);
                assert(occurs_at(chars@, space@, k as int));
                assert(chars@.subrange(k as int, k + 1) =~= space@);
            }
            let mut icon: Vec<char> = Vec::new();
            let mut i: usize = 0;
            while i < k
                invariant
                    i <= k < chars@.len(),
                    icon@ == chars@.take(i as int),
                decreases k - i,
            {
                icon.push(chars[i]);
                i += 1;
                assert(icon@ =~= chars@.take(i as int));
            }
            let mut text: Vec<char> = Vec::new();
            let n = chars.len();
            assert(k < n);
            let mut j: usize = k + 1;
            while j < chars.len()
                invariant
                    k + 1 <= j <= chars@.len(),
                    text@ == chars@.subrange(k + 1, j as int),
                decreases chars@.len() - j,
            {
                text.push(chars[j]);
                j += 1;
                assert(text@ =~= chars@.subrange(k + 1, j as int));
            }
            (string_of(&icon), string_of(&text))
        },
        None => {
            proof {
                assert(!exists|i: int| is_first_match(chars@, space@, i));
            }
            (String::new(), string_of(&chars))
        },
    }
}

} // verus!
