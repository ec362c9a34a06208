//! UTF-8 conversions of characters and strings, stated over vstd's model of
//! UTF-8.
use vstd::prelude::*;
use vstd::utf8::*;

use std::str::Utf8Error;

verus! {

/// Relies on `char::encode_utf8`: the UTF-8 encoding of `c`, one to four bytes.
#[verifier::external_body]
pub(crate) fn char_utf8(c: char) -> (r: Vec<u8>)
    ensures
        r@ == encode_utf8(seq![c]),
{
    let mut buf = [0u8; 4];
    c.encode_utf8(&mut buf).as_bytes().to_vec()
}

/// Relies on `std::str::from_utf8`: succeeds exactly when `v` is valid UTF-8,
/// and then holds the characters that `v` encodes.
#[verifier::external_body]
pub(crate) fn str_from_utf8(v: &[u8]) -> (r: Result<&str, Utf8Error>)
    ensures
        r is Ok <==> valid_utf8(v@),
        r matches Ok(s) ==> s@ == decode_utf8(v@),
{
    std::str::from_utf8(v)
}

} // verus!
