//! The trusted boundary for text decoding: conversions whose behaviour is
//! taken from the standard library's documentation rather than proved.
use vstd::prelude::*;

verus! {

/// The characters that the given UTF-16 code units decode to, or `None`
/// when the units are not well-formed UTF-16. Left abstract: only the
/// facts stated on [`utf16_to_string`] are known of it.
pub uninterp spec fn utf16_decode(units: Seq<u16>) -> Option<Seq<char>>;

/// The given characters with their trailing whitespace removed. Left
/// abstract: only the facts stated on [`trim_end_str`] are known of it.
pub uninterp spec fn trim_end_of(s: Seq<char>) -> Seq<char>;

/// Relies on `String::from_utf8`: succeeds exactly on valid UTF-8 and
/// returns the decoded characters, as vstd's UTF-8 specification states
/// them.
#[verifier::external_body]
pub(crate) fn utf8_to_string(bytes: Vec<u8>) -> (r: Option<String>)
    ensures
        r is Some <==> vstd::utf8::valid_utf8(bytes@),
        r is Some ==> r.unwrap()@ == vstd::utf8::decode_utf8(bytes@),
{
    match String::from_utf8(bytes) {
        Ok(s) => Some(s),
        Err(_) => None,
    }
}

/// Relies on `String::from_utf16`: the result is a function of the code
/// units alone, and units below the surrogate range decode one-for-one to
/// the characters with the same scalar values.
#[verifier::external_body]
pub(crate) fn utf16_to_string(units: &Vec<u16>) -> (r: Option<String>)
    ensures
        r is Some <==> utf16_decode(units@) is Some,
        r is Some ==> r.unwrap()@ == utf16_decode(units@).unwrap(),
        (forall|i: int| 0 <= i < units@.len() ==> units@[i] < 0xD800) ==> (r is Some
            && r.unwrap()@ == Seq::new(units@.len(), |i: int| (units@[i] as u32) as char)),
{
    match String::from_utf16(units.as_slice()) {
        Ok(s) => Some(s),
        Err(_) => None,
    }
}

/// Relies on `str::trim_end`: removes trailing whitespace, a function of
/// the characters alone, and returns a prefix of its input.
#[verifier::external_body]
pub(crate) fn trim_end_str(s: &str) -> (r: &str)
    ensures
        r@ == trim_end_of(s@),
        r@.len() <= s@.len(),
        r@ == s@.subrange(0, r@.len() as int),
{
    s.trim_end()
}

} // verus!
