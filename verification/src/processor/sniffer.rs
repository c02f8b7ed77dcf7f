//! Sniffing the destination from the first bytes a client sends: the `Host`
//! header of an HTTP request, or the server name of a TLS hello.
pub mod http;

use vstd::prelude::*;
use crate::net::{DestAddr, DestView, ip_parse};
use crate::plumber::{Plumber, ProcessorKind};
use crate::router::matching::Connection;

verus! {

/// Registers the processor as `sniffer`.
pub fn register(plumber: &mut Plumber)
    ensures
        final(plumber)@ == old(plumber)@.push(("sniffer"@, ProcessorKind::Sniffer)),
{
    plumber.register("sniffer", ProcessorKind::Sniffer);
}

/// What a sniffer makes of the bytes so far.
#[derive(Debug)]
pub enum SniffStatus {
    /// Not enough bytes to tell.
    NoClue,
    /// The bytes are not of this protocol, or name no host.
    Fail(&'static str),
    /// The host the bytes name.
    Success(String),
}

/// The protocols that can be sniffed.
#[derive(Debug, Clone, Copy, PartialEq, Eq, Structural)]
pub enum SniffType {
    Http,
    Tls,
}

/// Which protocols to sniff, and whether to override the destination.
#[derive(Debug, Clone)]
pub struct SnifferConfig {
    pub types: Vec<SniffType>,
    pub override_dest: bool,
}

impl SnifferConfig {
    /// Both protocols, without overriding.
    pub fn default() -> (r: Self)
        ensures
            r.types@ == seq![SniffType::Http, SniffType::Tls],
            !r.override_dest,
    {
        let mut types: Vec<SniffType> = Vec::new();
        types.push(SniffType::Http);
        types.push(SniffType::Tls);
        assert(types@ =~= seq![SniffType::Http, SniffType::Tls]);
        SnifferConfig { types, override_dest: false }
    }
}

/// How far sniffing has come.
#[derive(Debug, Clone, Copy, PartialEq, Eq, Structural)]
pub struct SniffState {
    pub attempts: u8,
    pub http_failed: bool,
    pub tls_failed: bool,
}

/// What to do after a read.
#[derive(Debug, Clone, Copy, PartialEq, Eq, Structural)]
pub enum SniffAction {
    /// Read again, where `SnifferProcessor::should_read` allows.
    ReadMore,
    /// Stop sniffing and relay everything read; the protocol found, if any
    /// (recorded on the connection as `http` or `tls`).
    Done(Option<SniffType>),
}

/// The processor.
pub struct SnifferProcessor {
    pub config: SnifferConfig,
}

/// The most reads made while sniffing.
pub const MAX_ATTEMPTS: u8 = 5;

impl SnifferProcessor {
    /// The state before the first read: a protocol not configured counts as
    /// failed.
    pub fn start(&self) -> (r: SniffState)
        ensures
            r.attempts == 0,
            r.http_failed == !self.config.types@.contains(SniffType::Http),
            r.tls_failed == !self.config.types@.contains(SniffType::Tls),
    {
        let mut has_http = false;
        let mut has_tls = false;
        let mut i: usize = 0;
        while i < self.config.types.len()
            invariant
                i <= self.config.types@.len(),
                has_http == self.config.types@.take(i as int).contains(SniffType::Http),
                has_tls == self.config.types@.take(i as int).contains(SniffType::Tls),
            decreases self.config.types.len() - i,
        {
            let ghost pre = self.config.types@.take(i as int);
            assert(self.config.types@.take(i + 1) == pre.push(self.config.types@[i as int]));
            match self.config.types[i] {
                SniffType::Http => has_http = true,
                SniffType::Tls => has_tls = true,
            }
            proof {
                let cur = self.config.types@.take(i + 1);
                assert(cur[i as int] == self.config.types@[i as int]);
                assert forall|t: SniffType| cur.contains(t) <==> (pre.contains(t) || t == self.config.types@[i as int]) by {
                    if cur.contains(t) {
                        let k = choose|k: int| 0 <= k < cur.len() && cur[k] == t;
                        if k < i {
                            assert(pre[k] == t);
                        }
                    }
                    if pre.contains(t) {
                        let k = choose|k: int| 0 <= k < pre.len() && pre[k] == t;
                        assert(cur[k] == t);
                    }
                }
            }
            i = i + 1;
        }
        assert(self.config.types@.take(i as int) == self.config.types@);
        SniffState { attempts: 0, http_failed: !has_http, tls_failed: !has_tls }
    }

    /// Whether another read is made.
    pub fn should_read(&self, state: &SniffState) -> (r: bool)
        ensures
            r == (state.attempts < MAX_ATTEMPTS),
    {
        state.attempts < MAX_ATTEMPTS
    }

    /// Decides after a read of `n` bytes, with `buf` all read so far and
    /// `tls` what the TLS sniffer makes of it. An empty read ends sniffing.
    /// Each protocol not yet failed is asked, HTTP first: a host found sets
    /// the destination (from HTTP as an address where it spells one, else
    /// as a name; from TLS as a name) and ends sniffing. When both have
    /// failed, or after the last attempt, sniffing ends without a protocol.
    pub fn on_read(&self, state: &mut SniffState, buf: &[u8], n: usize, tls: SniffStatus, conn: &mut Connection) -> (r: SniffAction)
        requires
            old(state).attempts < MAX_ATTEMPTS,
        ensures
            final(conn).src_ip == old(conn).src_ip,
            final(conn).typ == old(conn).typ,
            final(conn).inbound_tag@ == old(conn).inbound_tag@,
            ({
                let http = if old(state).http_failed { http::SniffView::NoClue } else { http::spec_sniff(buf@) };
                let http_failed = old(state).http_failed || http is Fail;
                let tls_failed = old(state).tls_failed || (!(http is Success) && tls is Fail);
                if n == 0 {
                    r == SniffAction::Done(None) && final(conn).dest_addr@ == old(conn).dest_addr@
                } else if let http::SniffView::Success(h) = http {
                    r == SniffAction::Done(Some(SniffType::Http))
                        && final(conn).dest_addr@ == match ip_parse(h) {
                            Some(ip) => DestView { ip: Some(ip), ..old(conn).dest_addr@ },
                            None => DestView { domain: Some(h), ..old(conn).dest_addr@ },
                        }
                } else if !old(state).tls_failed && tls is Success {
                    r == SniffAction::Done(Some(SniffType::Tls))
                        && final(conn).dest_addr@ == DestView { domain: Some(tls->Success_0@), ..old(conn).dest_addr@ }
                } else {
                    &&& final(conn).dest_addr@ == old(conn).dest_addr@
                    &&& final(state).http_failed == http_failed
                    &&& final(state).tls_failed == tls_failed
                    &&& if http_failed && tls_failed {
                        r == SniffAction::Done(None)
                    } else {
                        final(state).attempts == old(state).attempts + 1
                            && r == (if final(state).attempts < MAX_ATTEMPTS { SniffAction::ReadMore } else { SniffAction::Done(None) })
                    }
                }
            }),
    {
        if n == 0 {
            return SniffAction::Done(None);
        }
        if !state.http_failed {
            match http::sniff(buf) {
                SniffStatus::NoClue => {},
                SniffStatus::Fail(_) => state.http_failed = true,
                SniffStatus::Success(s) => {
                    conn.dest_addr.set_host_from_str(s.as_str());
                    return SniffAction::Done(Some(SniffType::Http));
                },
            }
        }
        if !state.tls_failed {
            match tls {
                SniffStatus::NoClue => {},
                SniffStatus::Fail(_) => state.tls_failed = true,
                SniffStatus::Success(s) => {
                    conn.dest_addr.set_domain(s.as_str());
                    return SniffAction::Done(Some(SniffType::Tls));
                },
            }
        }
        if state.http_failed && state.tls_failed {
            return SniffAction::Done(None);
        }
        state.attempts = state.attempts + 1;
        if state.attempts < MAX_ATTEMPTS { SniffAction::ReadMore } else { SniffAction::Done(None) }
    }
}

} // verus!
