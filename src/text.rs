use vstd::prelude::*;
use vstd::utf8::{decode_utf8 as utf8_chars, valid_utf8};

verus! {

/// The characters that a byte sequence decodes to as UTF-8, or `None` where it is not valid UTF-8.
pub open spec fn utf8_text(b: Seq<u8>) -> Option<Seq<char>> {
    if valid_utf8(b) {
        Some(utf8_chars(b))
    } else {
        None
    }
}

/// Relies on std::str::from_utf8: it accepts exactly the valid UTF-8 sequences
/// and decodes them.
#[verifier::external_body]
pub(crate) fn decode_utf8(b: &[u8]) -> (r: Option<String>)
    ensures
        r is Some <==> valid_utf8(b@),
        r matches Some(s) ==> s@ == utf8_chars(b@),
{
    std::str::from_utf8(b).ok().map(|s| s.to_string())
}

} // verus!
