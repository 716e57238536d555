use vstd::prelude::*;

use unicode_segmentation::UnicodeSegmentation;

verus! {

/// The extended grapheme clusters of a character sequence, in original
/// left-to-right order, per UAX #29. A pure function of the characters alone.
pub uninterp spec fn graphemes_of(s: Seq<char>) -> Seq<Seq<char>>;

/// Relies on unicode_segmentation's graphemes iterator (extended clusters):
/// it yields consecutive nonempty subslices of the input at UAX #29 grapheme
/// boundaries, in order, so concatenating the clusters reconstructs the
/// input; the clusters depend on the characters alone.
#[verifier::external_body]
fn graphemes_raw(text: &str) -> (r: Vec<String>)
    ensures
        r.deep_view() == graphemes_of(text@),
        r.deep_view().flatten() == text@,
        forall|i: int| 0 <= i < r.deep_view().len() ==> #[trigger] r.deep_view()[i].len() > 0,
{
    text.graphemes(true).map(|g| g.to_string()).collect()
}

/// Split text into extended grapheme clusters.
///
/// Clusters come back in original left-to-right order, each one nonempty, and
/// concatenating all of them reconstructs the input exactly; multi-codepoint
/// clusters (combining marks, emoji modifier sequences) are never split.
pub fn segment_graphemes(text: &str) -> (r: Vec<String>)
    ensures
        r.deep_view() == graphemes_of(text@),
        r.deep_view().flatten() == text@,
        forall|i: int| 0 <= i < r.deep_view().len() ==> #[trigger] r.deep_view()[i].len() > 0,
{
    graphemes_raw(text)
}

} // verus!
