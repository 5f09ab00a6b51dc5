//! Reading bytes as text.
//!
//! Views into a buffer are kept as bytes. Where text is asked for, the
//! bytes are checked to be UTF-8 first.

use vstd::prelude::*;
use vstd::string::StringSliceAdditionalSpecFns;
use vstd::utf8::valid_utf8;

verus! {

/// What `str::to_lowercase` makes of a text.
pub uninterp spec fn lowercased(text: Seq<char>) -> Seq<char>;

/// `bytes` as text, when they are UTF-8.
///
/// Trusted: this is `core::str::from_utf8`. It is taken to accept exactly
/// the sequences that `valid_utf8` describes, and to hand back a text that
/// is made of the very bytes it was given.
#[verifier::external_body]
pub(crate) fn utf8_text<'a>(bytes: &'a [u8]) -> (text: Option<&'a str>)
    ensures
        text is Some <==> valid_utf8(bytes@),
        text matches Some(t) ==> t.spec_bytes() == bytes@,
{
    core::str::from_utf8(bytes).ok()
}

/// The lowercase form of `text`.
///
/// Trusted: this is `str::to_lowercase`, whose result depends on the text
/// alone and goes by the name `lowercased`.
#[verifier::external_body]
pub(crate) fn lowercase(text: &str) -> (lowered: String)
    ensures
        lowered@ == lowercased(text@),
{
    text.to_lowercase()
}

} // verus!
