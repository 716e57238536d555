use vstd::prelude::*;

use unicode_normalization::UnicodeNormalization;

verus! {

/// Unicode Normalization Form C (canonical composition) of a character
/// sequence, per UAX #15. A pure function of the characters alone.
pub uninterp spec fn nfc_of(s: Seq<char>) -> Seq<char>;

/// Unicode Normalization Form D (canonical decomposition) of a character
/// sequence, per UAX #15. A pure function of the characters alone.
pub uninterp spec fn nfd_of(s: Seq<char>) -> Seq<char>;

/// Relies on unicode_normalization's nfc iterator: it yields the NFC form of
/// the input, which depends on the characters alone. UAX #15 guarantees that
/// text already in a normalization form is left unchanged by normalizing to
/// that same form, so the result is a fixed point of NFC; and that each
/// normal form of a string is canonically equivalent to it, with one normal
/// form per equivalence class, so the result has the same NFD form as the
/// input.
#[verifier::external_body]
fn nfc_raw(text: &str) -> (r: String)
    ensures
        r@ == nfc_of(text@),
        nfc_of(r@) == r@,
        nfd_of(r@) == nfd_of(text@),
{
    text.nfc().collect()
}

/// Relies on unicode_normalization's nfd iterator: it yields the NFD form of
/// the input, which depends on the characters alone. UAX #15 guarantees that
/// text already in a normalization form is left unchanged by normalizing to
/// that same form, so the result is a fixed point of NFD; that each normal
/// form of a string is canonically equivalent to it, with one normal form per
/// equivalence class, so the result has the same NFC form as the input; and
/// that NFC is the canonical composition of the canonical decomposition,
/// where composition only merges codepoints, so the result is at least as
/// long as the NFC form.
#[verifier::external_body]
fn nfd_raw(text: &str) -> (r: String)
    ensures
        r@ == nfd_of(text@),
        nfd_of(r@) == r@,
        nfc_of(r@) == nfc_of(text@),
        r@.len() >= nfc_of(text@).len(),
{
    text.nfd().collect()
}

/// Canonicalize text to Unicode Normalization Form C.
///
/// Idempotent: the result is already in NFC, so normalizing it again to NFC
/// returns it unchanged. Canonical equivalence is preserved: the result has
/// the same NFD form as the input, so byte-different but equivalent inputs
/// canonicalize to identical text.
pub fn normalize_unicode_nfc(text: &str) -> (r: String)
    ensures
        r@ == nfc_of(text@),
        nfc_of(r@) == r@,
        nfd_of(r@) == nfd_of(text@),
{
    nfc_raw(text)
}

/// Canonicalize text to Unicode Normalization Form D.
///
/// Idempotent: the result is already in NFD, so normalizing it again to NFD
/// returns it unchanged. Canonical equivalence is preserved: the result has
/// the same NFC form as the input. The decomposed form has at least as many
/// codepoints as the NFC form of the same text, since canonical composition
/// only merges codepoints.
pub fn normalize_unicode_nfd(text: &str) -> (r: String)
    ensures
        r@ == nfd_of(text@),
        nfd_of(r@) == r@,
        nfc_of(r@) == nfc_of(text@),
        r@.len() >= nfc_of(text@).len(),
{
    nfd_raw(text)
}

} // verus!
