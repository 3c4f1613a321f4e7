//! Display widths of text in terminal columns, as the `unicode-width` crate
//! computes them.
use vstd::prelude::*;

use crate::text::string_of;

verus! {

/// Columns that `UnicodeWidthStr::width` gives a string. The rules (East
/// Asian width, emoji sequences, ligatures) take pages; the value depends on
/// the characters alone.
pub uninterp spec fn str_display_width(s: Seq<char>) -> usize;

/// Columns that `UnicodeWidthChar::width` gives one character (`None` for a
/// control character). Depends on the character alone.
pub uninterp spec fn char_display_width(c: char) -> Option<usize>;

/// Columns a character takes when laid out one by one: control characters
/// count as zero.
pub open spec fn char_cols(c: char) -> nat {
    match char_display_width(c) {
        Some(w) => w as nat,
        None => 0,
    }
}

/// Sum of the per-character columns of `s`.
pub open spec fn cols_sum(s: Seq<char>) -> nat
    decreases s.len(),
{
    if s.len() == 0 {
        0
    } else {
        cols_sum(s.drop_last()) + char_cols(s.last())
    }
}

/// Calls `unicode_width::UnicodeWidthStr::width`; the contract only names its
/// result, as a function of the characters of `s`.
#[verifier::external_body]
pub(crate) fn str_width(s: &str) -> (w: usize)
    ensures
        w == str_display_width(s@),
{
    unicode_width::UnicodeWidthStr::width(s)
}

/// Calls `unicode_width::UnicodeWidthChar::width`; the contract only names its
/// result, as a function of `c`.
#[verifier::external_body]
pub(crate) fn char_width(c: char) -> (w: Option<usize>)
    ensures
        w == char_display_width(c),
{
    unicode_width::UnicodeWidthChar::width(c)
}

/// Display width of a run of characters.
pub fn chars_width(s: &[char]) -> (w: usize)
    ensures
        w == str_display_width(s@),
{
    let text = string_of(s);
    str_width(text.as_str())
}

} // verus!
