pub mod req_service;
pub mod resp_service;
