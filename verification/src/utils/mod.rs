pub mod adb_ext;
pub mod imm_cmd;
pub mod interact_cmd;
