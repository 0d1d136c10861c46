//! The boundary between owned strings and the character and byte sequences
//! the codecs work over. These are the only trusted items of the crate.

use vstd::prelude::*;

verus! {

/// Relies on str::chars: it yields exactly the characters of the string,
/// in order.
#[verifier::external_body]
pub(crate) fn str_chars(s: &str) -> (r: Vec<char>)
    ensures
        r@ == s@,
{
    s.chars().collect()
}

/// Relies on String's FromIterator over char: it builds the string of
/// exactly those characters, in order.
#[verifier::external_body]
pub(crate) fn chars_string(v: &Vec<char>) -> (r: String)
    ensures
        r@ == v@,
{
    v.iter().collect()
}

/// Relies on String::from_utf8: it succeeds exactly on well-formed UTF-8
/// input and keeps the bytes unchanged.
#[verifier::external_body]
pub(crate) fn bytes_string(v: Vec<u8>) -> (r: Option<String>)
    ensures
        vstd::utf8::valid_utf8(v@) <==> r is Some,
        r is Some ==> vstd::utf8::encode_utf8(r->Some_0@) == v@,
{
    match String::from_utf8(v) {
        Ok(s) => Some(s),
        Err(_) => None,
    }
}

} // verus!
