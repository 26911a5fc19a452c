//! DNS message model, RDATA payloads and wire codec, plus the small pure
//! helpers the server builds on top of them.

pub mod error;
pub mod types;
pub mod text;
pub mod name;
pub mod header;
pub mod question;
pub mod rdata;
pub mod wire;
pub mod cache;
pub mod v2ray_dat;
pub mod diagnostic;
pub mod names;
pub mod api_auth;
pub mod api_cors;
pub mod init_plan;
pub mod payload_text;
pub mod edns_summary;
pub mod payload_fields;
