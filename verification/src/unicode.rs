//! What the Unicode tables say of a text: its grapheme clusters and the
//! columns it takes on a terminal. Both are taken on trust from the crates
//! that hold the tables.

use vstd::prelude::*;
use unicode_segmentation::UnicodeSegmentation;
use unicode_width::UnicodeWidthStr;

verus! {

/// The columns that `text` takes on a terminal, as `unicode-width` counts
/// them.
pub uninterp spec fn display_width(text: Seq<char>) -> nat;

/// The grapheme clusters of `text` in order, extended or legacy, as
/// `unicode-segmentation` finds them.
pub uninterp spec fn grapheme_clusters(text: Seq<char>, extended: bool) -> Seq<Seq<char>>;

/// `parts` one after the other.
pub open spec fn joined(parts: Seq<Seq<char>>) -> Seq<char>
    decreases parts.len(),
{
    if parts.len() == 0 {
        Seq::empty()
    } else {
        joined(parts.drop_last()) + parts.last()
    }
}

/// The text of each slice.
pub open spec fn slice_texts(slices: Seq<&str>) -> Seq<Seq<char>> {
    slices.map_values(|s: &str| s@)
}

/// Calls `UnicodeWidthStr::width` of `unicode-width`. Trusted: the result is
/// [`display_width`] of the text, a function of the text alone.
#[verifier::external_body]
pub(crate) fn str_width(text: &str) -> (width: usize)
    ensures
        width == display_width(text@),
{
    UnicodeWidthStr::width(text)
}

/// Calls `UnicodeSegmentation::graphemes` of `unicode-segmentation` and
/// collects what it yields. Trusted: the slices are the
/// [`grapheme_clusters`] of the text, a function of the text and the flag
/// alone; in a row they make up the text, since the iterator cuts the text
/// at increasing boundaries from its start to its end.
#[verifier::external_body]
pub(crate) fn graphemes<'a>(text: &'a str, extended: bool) -> (clusters: Vec<&'a str>)
    ensures
        slice_texts(clusters@) == grapheme_clusters(text@, extended),
        joined(slice_texts(clusters@)) == text@,
{
    UnicodeSegmentation::graphemes(text, extended).collect()
}

} // verus!
