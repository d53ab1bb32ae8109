pub mod adb_respond;
pub mod wire;
