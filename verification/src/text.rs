//! Conversion of raw bytes to owned text.

use vstd::prelude::*;
use vstd::utf8::{decode_utf8, valid_utf8};

verus! {

/// Relies on `String::from_utf8`: it returns `Ok` exactly when the input
/// is valid UTF-8, and the resulting string is the decoding of those
/// bytes.
#[verifier::external_body]
pub(crate) fn utf8_to_string(v: Vec<u8>) -> (r: Option<String>)
    ensures
        r is Some <==> valid_utf8(v@),
        r matches Some(t) ==> t@ == decode_utf8(v@),
{
    String::from_utf8(v).ok()
}

} // verus!
