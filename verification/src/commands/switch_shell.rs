use std::borrow::Cow;
use vstd::prelude::*;
use vstd::utf8::*;

use super::{Cmd, SyncHandler};
use crate::protocol::wire::{decode_text, is_utf8};

verus! {

/// Enters or leaves the device shell.
pub enum SwitchShell {
    Shell,
    Exit,
}

impl Cmd for SwitchShell {
    open spec fn cmd_text(&self) -> Seq<char> {
        match self {
            SwitchShell::Shell => "shell:"@,
            SwitchShell::Exit => "exit"@,
        }
    }

    fn cmd(self) -> (r: Cow<'static, str>) {
        match self {
            SwitchShell::Shell => Cow::Borrowed("shell:"),
            SwitchShell::Exit => Cow::Borrowed("exit"),
        }
    }
}

/// `std::io::Error::new(ErrorKind::InvalidData, ..)`: the error that reading
/// non-UTF-8 bytes into a `String` gives. Nothing is stated of the value.
#[verifier::external_body]
fn invalid_data_error() -> std::io::Error {
    std::io::Error::new(std::io::ErrorKind::InvalidData, "stream did not contain valid UTF-8")
}

impl SyncHandler for SwitchShell {
    type Resp = String;

    type Err = std::io::Error;

    /// The shell's output as text; an error exactly when it is not UTF-8.
    fn sync_handle(output: Vec<u8>) -> (r: Result<String, std::io::Error>)
        ensures
            r is Ok <==> valid_utf8(output@),
            r matches Ok(s) ==> s@ == decode_utf8(output@),
    {
        if is_utf8(output.as_slice()) {
            Ok(decode_text(output.as_slice()))
        } else {
            Err(invalid_data_error())
        }
    }
}

} // verus!
