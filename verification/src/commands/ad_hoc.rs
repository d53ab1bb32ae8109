use std::borrow::Cow;
use vstd::prelude::*;

use super::Cmd;

verus! {

/// A command that does nothing on the device.
pub struct Mock;

impl Cmd for Mock {
    open spec fn cmd_text(&self) -> Seq<char> {
        "host:mock"@
    }

    fn cmd(self) -> (r: Cow<'static, str>) {
        Cow::Borrowed("host:mock")
    }
}

} // verus!
