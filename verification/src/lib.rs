//! Verified core of a rule-based proxy: protocol framing, header codecs,
//! routing rules and the processor registry.

pub mod router;
pub mod rule_provider;
pub mod bytes;
pub mod text;
pub mod crypto;
pub mod net;
pub mod processor;
pub mod utils;
pub mod plumber;
pub mod server_provider;
pub mod protos;
pub mod cfb;
pub mod dns;
