//! Calls into the standard library that vstd gives no specification, each
//! behind one wrapper whose contract says what the documentation promises.
use vstd::prelude::*;
use vstd::utf8::{decode_utf8, valid_utf8};

verus! {

/// `String: FromIterator<&char>`: collecting the characters of `v`, in order,
/// into a `String` gives the text made of exactly those characters.
#[verifier::external_body]
pub(crate) fn string_of(v: &Vec<char>) -> (s: String)
    ensures
        s@ == v@,
{
    v.iter().collect()
}

/// The text that `String::from_utf8_lossy` makes of `bytes`: their UTF-8
/// decoding, each invalid sequence replaced by U+FFFD.
pub uninterp spec fn lossy_utf8(bytes: Seq<u8>) -> Seq<char>;

/// The text that `str::to_lowercase` makes of `s` (Unicode lower case).
pub uninterp spec fn lowercase_of(s: Seq<char>) -> Seq<char>;

/// `String::from_utf8`: the text that `bytes` encode, when they are valid
/// UTF-8, else `None`.
#[verifier::external_body]
pub(crate) fn utf8_text(bytes: &Vec<u8>) -> (r: Option<String>)
    ensures
        r is Some <==> valid_utf8(bytes@),
        r matches Some(s) ==> s@ == decode_utf8(bytes@),
{
    String::from_utf8(bytes.clone()).ok()
}

/// `String::from_utf8_lossy`: the text of `bytes`, with U+FFFD for each
/// invalid sequence; on valid UTF-8 it is the plain decoding. How invalid
/// sequences are grouped into replacement characters is left unsaid here:
/// the result is named `lossy_utf8`.
#[verifier::external_body]
pub(crate) fn lossy_text(bytes: &Vec<u8>) -> (r: String)
    ensures
        r@ == lossy_utf8(bytes@),
        valid_utf8(bytes@) ==> r@ == decode_utf8(bytes@),
{
    String::from_utf8_lossy(bytes).into_owned()
}

/// `str::to_lowercase`: the Unicode lower case of `s`, named `lowercase_of`;
/// the Unicode case tables are not restated here.
#[verifier::external_body]
pub(crate) fn lowercase(s: &str) -> (r: String)
    ensures
        r@ == lowercase_of(s@),
{
    s.to_lowercase()
}

} // verus!
