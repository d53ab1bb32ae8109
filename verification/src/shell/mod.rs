use std::borrow::Cow;
use vstd::prelude::*;
use vstd::string::*;

use crate::commands::shell_cmd::{shell_line, ShellCmd};
use crate::commands::Cmd;

verus! {

/// A shell command written into an open shell session: the command line
/// alone, without the `shell:` service prefix.
pub struct WCmd<const R: bool> {
    inner: ShellCmd<R>,
}

impl<const R: bool> WCmd<R> {
    /// The shell command written.
    pub closed spec fn shell_cmd(&self) -> ShellCmd<R> {
        self.inner
    }

    /// Wraps a shell command for writing into an open session.
    pub fn new(inner: ShellCmd<R>) -> (r: WCmd<R>)
        ensures
            r.shell_cmd() == inner,
    {
        WCmd { inner }
    }
}

impl<const R: bool> Cmd for WCmd<R> {
    open spec fn cmd_text(&self) -> Seq<char> {
        shell_line(self.shell_cmd().command(), self.shell_cmd().arguments())
    }

    fn cmd(self) -> (r: Cow<'static, str>) {
        let line = self.inner.line();
        Cow::Owned(line)
    }
}

/// The request text of a shell command is `shell:` followed by the text the
/// same command has when written into an open shell session.
pub proof fn lemma_shell_prefix<const R: bool>(c: ShellCmd<R>, w: WCmd<R>)
    requires
        w.shell_cmd() == c,
    ensures
        c.cmd_text() == "shell:"@ + w.cmd_text(),
{
}

} // verus!
