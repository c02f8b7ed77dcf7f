//! A server that speaks SOCKS5 or HTTP, as the first byte tells.
use vstd::prelude::*;
use crate::plumber::{Plumber, ProcessorKind};

verus! {

/// Registers the server as `any_server`.
pub fn register(plumber: &mut Plumber)
    ensures
        final(plumber)@ == old(plumber)@.push(("any_server"@, ProcessorKind::AnyServer)),
{
    plumber.register("any_server", ProcessorKind::AnyServer);
}

/// The protocols the server tells apart.
#[derive(Debug, Clone, Copy, PartialEq, Eq, Structural)]
pub enum ProxyProtocol {
    Socks5,
    Http,
}

/// The server that hands a connection to the SOCKS5 or the HTTP server.
pub struct AnyProxyServerProcessor {}

impl AnyProxyServerProcessor {
    pub fn new() -> (r: Self) {
        AnyProxyServerProcessor {}
    }

    /// The protocol a connection speaks by its first byte: a SOCKS version
    /// (4 or 5) means SOCKS5, anything else HTTP. The byte stays in the
    /// stream for that server to read.
    pub fn protocol(&self, first_byte: u8) -> (r: ProxyProtocol)
        ensures
            r == (if first_byte == 4 || first_byte == 5 { ProxyProtocol::Socks5 } else { ProxyProtocol::Http }),
    {
        if first_byte == 4 || first_byte == 5 { ProxyProtocol::Socks5 } else { ProxyProtocol::Http }
    }
}

} // verus!
