use std::borrow::Cow;
use vstd::prelude::*;

verus! {

/// `std::io::Error`, carried through unchanged from the transport.
#[verifier::external_type_specification]
#[verifier::external_body]
pub struct ExIoError(std::io::Error);

/// A length header that is not an optional `+` followed by hexadecimal digits.
/// A four-byte header cannot be empty or overflow a `u16`, so a bad digit is
/// the only way its parse can fail, and this one value stands for it.
#[derive(Debug, Clone, Copy, PartialEq, Eq)]
pub struct InvalidLength;

/// What a request to the ADB server can fail with.
#[derive(Debug)]
pub enum AdbError<E> {
    /// The command's own reply handler failed.
    Cmd(E),
    /// The transport failed.
    Io(std::io::Error),
    /// A length header could not be read.
    Parse(InvalidLength),
    /// The server refused the request, with this message.
    Failure(String),
    /// The reply started with an unknown status word, given here as text.
    Unknown(Cow<'static, str>),
}

} // verus!
