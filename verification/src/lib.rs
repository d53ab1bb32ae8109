//! A client for the Android Debug Bridge host protocol: the commands it sends,
//! how they are framed on the wire, and how the replies are read.
pub mod commands;
pub mod protocol;
pub mod shell;
pub mod utils;

pub use protocol::adb_respond::AdbError;
