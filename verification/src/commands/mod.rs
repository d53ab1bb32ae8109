pub mod ad_hoc;
pub mod derives;
pub mod shell_cmd;
pub mod switch_shell;
pub mod to_shell;
pub mod transport;

use std::borrow::Cow;
use vstd::prelude::*;

verus! {

/// A request to the ADB server: the text it sends.
pub trait Cmd: Sized {
    /// The text of the request this command sends.
    spec fn cmd_text(&self) -> Seq<char>;

    /// The request text, as sent to the server.
    fn cmd(self) -> (r: Cow<'static, str>)
        ensures
            r@ == self.cmd_text(),
    ;
}

/// A command whose reply, once the shell prompt has been stripped, is read
/// from the collected bytes.
pub trait SyncHandler: Cmd {
    type Resp;

    type Err;

    /// Reads the reply from the bytes the shell printed before its prompt.
    fn sync_handle(output: Vec<u8>) -> Result<Self::Resp, Self::Err>;
}

/// Immediate Command: its reply is read as soon as it has been sent.
pub struct ImmCmd<C>(pub(crate) C);

/// Interactive Command: used only in shell mode.
pub struct InteractCmd<C>(pub(crate) C);

/// Live Update Command: keeps waiting on the reply stream.
pub struct LiveUpdateCmd<C>(pub(crate) C);

impl<C> ImmCmd<C> {
    /// The wrapped command.
    pub closed spec fn inner(&self) -> C {
        self.0
    }

    /// Gives back the wrapped command.
    pub fn into_inner(self) -> (c: C)
        ensures
            c == self.inner(),
    {
        self.0
    }
}

impl<C> InteractCmd<C> {
    /// The wrapped command.
    pub closed spec fn inner(&self) -> C {
        self.0
    }

    /// Gives back the wrapped command.
    pub fn into_inner(self) -> (c: C)
        ensures
            c == self.inner(),
    {
        self.0
    }
}

impl<C> LiveUpdateCmd<C> {
    /// The wrapped command.
    pub closed spec fn inner(&self) -> C {
        self.0
    }

    /// Gives back the wrapped command.
    pub fn into_inner(self) -> (c: C)
        ensures
            c == self.inner(),
    {
        self.0
    }
}

/// Marks how a command's reply is to be read.
pub trait CmdExt: Cmd + Sized {
    fn as_imm(self) -> (r: ImmCmd<Self>)
        ensures
            r.inner() == self,
    {
        ImmCmd(self)
    }

    fn as_interact(self) -> (r: InteractCmd<Self>)
        ensures
            r.inner() == self,
    {
        InteractCmd(self)
    }

    fn as_live(self) -> (r: LiveUpdateCmd<Self>)
        ensures
            r.inner() == self,
    {
        LiveUpdateCmd(self)
    }
}

impl<C: Cmd + Sized> CmdExt for C {
}

} // verus!

pub use derives::Derives;
pub use shell_cmd::ShellCmd;
pub use shell_cmd::ShellCmdBuilder;
pub use to_shell::ToShell;
pub use transport::TransPort;
