use std::borrow::Cow;
use vstd::prelude::*;

use super::Cmd;

verus! {

/// Opens an interactive shell on the device.
pub struct ToShell;

impl Cmd for ToShell {
    open spec fn cmd_text(&self) -> Seq<char> {
        "shell:"@
    }

    fn cmd(self) -> (r: Cow<'static, str>) {
        Cow::Borrowed("shell:")
    }
}

} // verus!
