//! HTTP proxying, as a server for local clients and as a client of an
//! upstream proxy.
pub mod client;
pub mod server;
