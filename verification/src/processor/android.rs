//! The Android NAT processor: a connection redirected to the local proxy
//! gets back its original destination from the NAT table.
use vstd::prelude::*;
use crate::net::IpAddr;
use crate::plumber::{Plumber, ProcessorKind};
use crate::router::matching::Connection;

verus! {

/// Registers the processor as `android_nat`.
pub fn register(plumber: &mut Plumber)
    ensures
        final(plumber)@ == old(plumber)@.push(("android_nat"@, ProcessorKind::AndroidNat)),
{
    plumber.register("android_nat", ProcessorKind::AndroidNat);
}

/// Why the original destination is unknown.
#[derive(Debug, Clone, Copy, PartialEq, Eq, Structural)]
pub enum NatError {
    /// The NAT table has no entry for the connection.
    EntryNotFound,
}

pub struct AndroidNatProcessor {}

impl AndroidNatProcessor {
    pub fn new() -> (r: Self) {
        AndroidNatProcessor {}
    }

    /// Sets the destination to the NAT table's entry for the connection
    /// (looked up by its transport, source port and source address), or
    /// fails where there is none.
    pub fn process_conn(&self, conn: &mut Connection, entry: Option<(IpAddr, u16)>) -> (r: Result<(), NatError>)
        ensures
            final(conn).src_ip == old(conn).src_ip,
            final(conn).typ == old(conn).typ,
            final(conn).inbound_tag@ == old(conn).inbound_tag@,
            final(conn).dest_addr@.domain == old(conn).dest_addr@.domain,
            match entry {
                Some((ip, port)) => r is Ok && final(conn).dest_addr@.ip == Some(ip)
                    && final(conn).dest_addr@.port == Some(port),
                None => r == Err::<(), NatError>(NatError::EntryNotFound) && final(conn).dest_addr@ == old(conn).dest_addr@,
            },
    {
        match entry {
            Some((ip, port)) => {
                conn.dest_addr.set_ip(ip);
                conn.dest_addr.set_port(port);
                Ok(())
            },
            None => Err(NatError::EntryNotFound),
        }
    }
}

} // verus!
