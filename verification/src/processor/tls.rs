//! The TLS client.
use vstd::prelude::*;
use crate::plumber::{Plumber, ProcessorKind};

verus! {

/// Registers the client as `tls_client`.
pub fn register(plumber: &mut Plumber)
    ensures
        final(plumber)@ == old(plumber)@.push(("tls_client"@, ProcessorKind::TlsClient)),
{
    plumber.register("tls_client", ProcessorKind::TlsClient);
}

} // verus!
