pub mod cmd_req;
pub mod cmd_resp;
