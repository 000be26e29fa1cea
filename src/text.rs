//! Text primitives that the matcher builds on: case folding and percent
//! decoding (both taken from outside code), and conversions between strings
//! and their characters.

use vstd::prelude::*;
use vstd::string::*;

verus! {

/// The lower-case form of a string, as `str::to_lowercase` computes it.
pub uninterp spec fn lower_of(s: Seq<char>) -> Seq<char>;

/// The text that a percent-encoded string decodes to, or `None` where the
/// decoded bytes are not valid UTF-8.
pub uninterp spec fn percent_decoded(s: Seq<char>) -> Option<Seq<char>>;

/// The decoded text where decoding succeeds, else the text as it stands.
pub open spec fn decoded_or_raw(s: Seq<char>) -> Seq<char> {
    match percent_decoded(s) {
        Some(d) => d,
        None => s,
    }
}

/// Relies on `str::to_lowercase`: the result depends on the characters alone.
#[verifier::external_body]
pub(crate) fn lowercase(s: &str) -> (r: String)
    ensures
        r@ == lower_of(s@),
{
    s.to_lowercase()
}

/// Relies on `percent_encoding::percent_decode_str` followed by
/// `PercentDecode::decode_utf8`: every `%` with two hex digits becomes one
/// byte, and the bytes are read as UTF-8, which fails on invalid sequences.
#[verifier::external_body]
pub(crate) fn percent_decode(s: &str) -> (r: Option<String>)
    ensures
        r matches Some(d) ==> percent_decoded(s@) == Some(d@),
        r is None ==> percent_decoded(s@) is None,
{
    percent_encoding::percent_decode_str(s).decode_utf8().ok().map(|d| d.into_owned())
}

/// Relies on `String::from_iter`: a string of the given characters, in order.
#[verifier::external_body]
pub(crate) fn string_from_chars(v: Vec<char>) -> (r: String)
    ensures
        r@ == v@,
{
    String::from_iter(v)
}

/// The characters of `s`, in order.
pub fn chars_of(s: &str) -> (r: Vec<char>)
    ensures
        r@ == s@,
{
    let n = s.unicode_len();
    let mut v: Vec<char> = Vec::new();
    let mut i: usize = 0;
    while i < n
        invariant
            n == s@.len(),
            i <= n,
            v@ == s@.subrange(0, i as int),
        decreases n - i,
    {
        v.push(s.get_char(i));
        i = i + 1;
    }
    v
}

/// A string's text with percent-escapes decoded, or the text as it stands
/// where decoding fails.
pub fn decode_or_keep(s: &str) -> (r: String)
    ensures
        r@ == decoded_or_raw(s@),
{
    match percent_decode(s) {
        Some(d) => d,
        None => String::from_str(s),
    }
}

} // verus!
