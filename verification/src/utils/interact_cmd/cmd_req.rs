use vstd::prelude::*;
use vstd::utf8::*;

use crate::commands::shell_cmd::cow_str;
use crate::commands::Cmd;
use crate::protocol::wire::text_bytes;

verus! {

/// Writes an interactive command into a shell session: its text and a newline.
pub struct InteractCmdReqService;

impl InteractCmdReqService {
    /// The bytes that send `cmd`: its text, then a newline.
    pub fn request<C: Cmd>(&self, cmd: C) -> (r: Vec<u8>)
        ensures
            r@ == encode_utf8(cmd.cmd_text()).push(0x0a),
    {
        let text = cmd.cmd();
        let mut bytes = text_bytes(cow_str(&text));
        bytes.push(0x0a);
        bytes
    }
}

} // verus!
