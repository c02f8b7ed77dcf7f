//! The connector that lets the HTTP client reach the network through an
//! inbound of the proxy itself.
use vstd::prelude::*;
use crate::net::{DestAddr, DestView, ip_parse};

verus! {

/// Connects through the inbound named `tag`.
#[derive(Debug, Clone)]
pub struct InternalHttpConnector {
    pub tag: String,
}

/// Why a URI cannot be connected to.
#[derive(Debug, Clone, Copy, PartialEq, Eq, Structural)]
pub enum ConnectorError {
    /// The URI has no host.
    MissingHost,
}

/// The destination of a URI with host `host`, port `port` and, where
/// `https`, the HTTPS scheme: the given port, else 443 for HTTPS and 80
/// otherwise.
pub open spec fn spec_target(host: Seq<char>, port: Option<u16>, https: bool) -> DestView {
    let p: u16 = match port {
        Some(p) => p,
        None => if https { 443 } else { 80 },
    };
    match ip_parse(host) {
        Some(ip) => DestView { domain: None, ip: Some(ip), port: Some(p) },
        None => DestView { domain: Some(host), ip: None, port: Some(p) },
    }
}

impl InternalHttpConnector {
    pub fn new(tag: &str) -> (r: Self)
        ensures
            r.tag@ == tag@,
    {
        InternalHttpConnector { tag: tag.to_owned() }
    }

    /// Where a request for a URI goes.
    pub fn target(&self, host: Option<&str>, port: Option<u16>, https: bool) -> (r: Result<DestAddr, ConnectorError>)
        ensures
            match host {
                None => r == Err::<DestAddr, ConnectorError>(ConnectorError::MissingHost),
                Some(h) => r matches Ok(d) && d@ == spec_target(h@, port, https),
            },
    {
        let h = match host {
            Some(h) => h,
            None => return Err(ConnectorError::MissingHost),
        };
        let p: u16 = match port {
            Some(p) => p,
            None => if https { 443 } else { 80 },
        };
        let mut addr = DestAddr::new();
        addr.set_host_from_str(h);
        addr.set_port(p);
        Ok(addr)
    }
}

} // verus!
