//! A processor that sets a connection's destination: to a configured one,
//! or else to one recorded on the connection earlier.
use vstd::prelude::*;
use crate::net::DestAddr;
use crate::plumber::{Plumber, ProcessorKind};
use crate::router::matching::Connection;

verus! {

/// Registers the processor as `set_dest`.
pub fn register(plumber: &mut Plumber)
    ensures
        final(plumber)@ == old(plumber)@.push(("set_dest"@, ProcessorKind::SetDest)),
{
    plumber.register("set_dest", ProcessorKind::SetDest);
}

/// The processor, with its configured destination if any.
#[derive(Debug)]
pub struct SetDestProcessor {
    pub dest: Option<DestAddr>,
}

impl SetDestProcessor {
    /// Sets the destination to the configured one; without one, to
    /// `recorded` (the destination recorded on the connection) where there
    /// is one; else leaves it.
    pub fn prepare(&self, conn: &mut Connection, recorded: Option<&DestAddr>)
        ensures
            final(conn).src_ip == old(conn).src_ip,
            final(conn).typ == old(conn).typ,
            final(conn).inbound_tag@ == old(conn).inbound_tag@,
            final(conn).dest_addr@ == match self.dest {
                Some(d) => d@,
                None => match recorded {
                    Some(d) => d@,
                    None => old(conn).dest_addr@,
                },
            },
    {
        match &self.dest {
            Some(d) => conn.dest_addr = d.copy(),
            None => match recorded {
                Some(d) => conn.dest_addr = d.copy(),
                None => {},
            },
        }
    }
}

} // verus!
