use std::borrow::Cow;
use vstd::prelude::*;
use vstd::string::*;

use super::Cmd;

verus! {

/// Selects the device that later requests go to.
pub enum TransPort {
    /// The device with this serial number.
    Serial(String),
    /// The only device attached over USB.
    Usb,
    /// The only emulator.
    Local,
    /// The only device of either kind.
    Any,
}

impl Cmd for TransPort {
    open spec fn cmd_text(&self) -> Seq<char> {
        match self {
            TransPort::Serial(s) => "host:transport:"@ + s@,
            TransPort::Usb => "host:transport-usb"@,
            TransPort::Local => "host:transport-local"@,
            TransPort::Any => "host:transport-any"@,
        }
    }

    fn cmd(self) -> (r: Cow<'static, str>) {
        match self {
            TransPort::Serial(s) => {
                let mut t = String::new();
                t.append("host:transport:");
                t.append(s.as_str());
                Cow::Owned(t)
            },
            TransPort::Usb => Cow::Borrowed("host:transport-usb"),
            TransPort::Local => Cow::Borrowed("host:transport-local"),
            TransPort::Any => Cow::Borrowed("host:transport-any"),
        }
    }
}

/// Transport law: the request for a serial is `host:transport:` followed by
/// every character of the serial, unchanged.
pub proof fn lemma_transport_serial(s: String)
    ensures
        ({
            let t = TransPort::Serial(s).cmd_text();
            &&& t.len() == 15 + s@.len()
            &&& t.take(15) == seq!['h', 'o', 's', 't', ':', 't', 'r', 'a', 'n', 's', 'p', 'o', 'r', 't', ':']
            &&& t.skip(15) == s@
        }),
{
    reveal_strlit("host:transport:");
    let t = TransPort::Serial(s).cmd_text();
    assert(t.take(15) =~= seq!['h', 'o', 's', 't', ':', 't', 'r', 'a', 'n', 's', 'p', 'o', 'r', 't', ':']);
    assert(t.skip(15) =~= s@);
}

} // verus!
