use vstd::prelude::*;
use vstd::utf8::*;

use crate::commands::shell_cmd::cow_str;
use crate::commands::Cmd;
use crate::protocol::wire::{frame, frame_bytes, text_bytes};

verus! {

/// Writes an immediate command: its length prefix, then its text.
pub struct ImmCmdReqService;

impl ImmCmdReqService {
    /// The bytes that send `cmd`: the byte length of its text as four (or
    /// more) upper-case hexadecimal digits, then the text.
    pub fn request<C: Cmd>(&self, cmd: C) -> (r: Vec<u8>)
        ensures
            r@ == frame(encode_utf8(cmd.cmd_text())),
    {
        let text = cmd.cmd();
        let bytes = text_bytes(cow_str(&text));
        frame_bytes(bytes.as_slice())
    }
}

} // verus!
