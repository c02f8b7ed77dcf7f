//! The connection processors: protocol clients and servers, and the
//! registry that names them.
pub mod shadowsocks;
pub mod vmess;
pub mod http;
pub mod socks5;
pub mod linux;
pub mod any_proxy;
pub mod set_dest;
pub mod android;
pub mod timeout;
pub mod ws;
pub mod tls;
pub mod tls_mitm;
pub mod trojan;
pub mod sniffer;

use vstd::prelude::*;
use crate::plumber::{Plumber, ProcessorKind};

verus! {

/// What the build target offers: Android's NAT table, Linux-style socket
/// tables (Linux and Android), and TLS interception (a build option).
#[derive(Debug, Clone, Copy)]
pub struct Platform {
    pub android: bool,
    pub linux: bool,
    pub tls_mitm: bool,
}

/// The registrations `do_register` makes, in order.
pub open spec fn registrations(p: Platform) -> Seq<(Seq<char>, ProcessorKind)> {
    (if p.android { seq![("android_nat"@, ProcessorKind::AndroidNat)] } else { Seq::empty() })
    + (if p.linux { seq![("associate_uid"@, ProcessorKind::AssociateUid)] } else { Seq::empty() })
    + seq![
        ("socks5_server"@, ProcessorKind::Socks5Server),
        ("sniffer"@, ProcessorKind::Sniffer),
        ("http_proxy_client"@, ProcessorKind::HttpProxyClient),
        ("http_proxy_server"@, ProcessorKind::HttpProxyServer),
        ("ssr_auth_client"@, ProcessorKind::SsrAuthClient),
        ("ss_handshake_client"@, ProcessorKind::SsHandshakeClient),
        ("ssr_obfs_client"@, ProcessorKind::SsrObfsClient),
        ("ss_stream_cipher_client"@, ProcessorKind::SsStreamCipherClient),
        ("ssr_client"@, ProcessorKind::SsrClient),
        ("timeout"@, ProcessorKind::Timeout),
        ("any_server"@, ProcessorKind::AnyServer),
        ("set_dest"@, ProcessorKind::SetDest),
        ("ws_client"@, ProcessorKind::WsClient),
        ("trojan_client"@, ProcessorKind::TrojanClient),
        ("tls_client"@, ProcessorKind::TlsClient)
    ]
    + (if p.tls_mitm { seq![("tls_mitm"@, ProcessorKind::TlsMitm)] } else { Seq::empty() })
}

/// Registers every processor the platform offers.
pub fn do_register(plumber: &mut Plumber, platform: Platform)
    ensures
        final(plumber)@ == old(plumber)@ + registrations(platform),
{
    if platform.android {
        android::register(plumber);
    }
    if platform.linux {
        linux::register(plumber);
    }
    socks5::register(plumber);
    sniffer::register(plumber);
    http::client::register(plumber);
    http::server::register(plumber);
    shadowsocks::register(plumber);
    timeout::register(plumber);
    any_proxy::register(plumber);
    set_dest::register(plumber);
    ws::register(plumber);
    trojan::register(plumber);
    tls::register(plumber);
    if platform.tls_mitm {
        tls_mitm::register(plumber);
    }
    assert(plumber@ =~= old(plumber)@ + registrations(platform));
}

} // verus!
