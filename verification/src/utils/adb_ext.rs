use vstd::prelude::*;
use vstd::utf8::*;

use crate::protocol::adb_respond::{AdbError, InvalidLength};
use crate::protocol::wire::{decode_text, parse_len, spec_parse_len};

verus! {

/// The size a four-byte length header announces; a `Parse` error exactly
/// when the header is not an optional `+` followed by hexadecimal digits.
pub fn size_from_header<E>(header: [u8; 4]) -> (r: Result<usize, AdbError<E>>)
    ensures
        match spec_parse_len(header@) {
            Some(n) => r == Ok::<usize, AdbError<E>>(n as usize),
            None => r matches Err(AdbError::Parse(_)),
        },
{
    match parse_len(header) {
        Some(n) => Ok(n as usize),
        None => Err(AdbError::Parse(InvalidLength)),
    }
}

/// The text of a reply body. Only UTF-8 bodies are accepted.
pub fn body_text(body: &[u8]) -> (r: String)
    requires
        valid_utf8(body@),
    ensures
        r@ == decode_utf8(body@),
{
    decode_text(body)
}

} // verus!
