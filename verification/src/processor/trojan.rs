//! The Trojan client: every connection starts with the hex SHA-224 of the
//! password and a SOCKS5-like request, each ended by CRLF.
use vstd::prelude::*;
use vstd::utf8::encode_utf8;
use crate::bytes::{be_bytes, push_be, push_slice};
use crate::crypto::{sha224, sha224_digest};
use crate::net::{DestAddr, DestView, IpAddr, push_ip_octets};
use crate::plumber::{Plumber, ProcessorKind};
use crate::router::matching::Connection;

verus! {

/// Registers the client as `trojan_client`.
pub fn register(plumber: &mut Plumber)
    ensures
        final(plumber)@ == old(plumber)@.push(("trojan_client"@, ProcessorKind::TrojanClient)),
{
    plumber.register("trojan_client", ProcessorKind::TrojanClient);
}

/// The lower-case hexadecimal digit of `d` (below 16).
pub open spec fn hex_digit(d: nat) -> char {
    if d < 10 { ((d + 48) as u8) as char } else { ((d + 87) as u8) as char }
}

/// The lower-case hexadecimal text of `b`, two digits per byte.
pub open spec fn hex_text(b: Seq<u8>) -> Seq<char>
    decreases b.len(),
{
    if b.len() == 0 {
        Seq::empty()
    } else {
        hex_text(b.drop_last()) + seq![hex_digit(b.last() as nat / 16), hex_digit(b.last() as nat % 16)]
    }
}

fn hex_digit_exec(d: u8) -> (c: char)
    requires
        d < 16,
    ensures
        c == hex_digit(d as nat),
{
    if d < 10 { (d + 48) as char } else { (d + 87) as char }
}

/// The lower-case hexadecimal text of `b`, as `hex::encode` gives it.
pub fn hex_encode(b: &[u8]) -> (r: String)
    ensures
        r@ == hex_text(b@),
{
    let mut r = String::new();
    let mut i: usize = 0;
    while i < b.len()
        invariant
            i <= b@.len(),
            r@ == hex_text(b@.take(i as int)),
        decreases b.len() - i,
    {
        assert(b@.take(i + 1).drop_last() == b@.take(i as int));
        crate::text::push_char(&mut r, hex_digit_exec(b[i] / 16));
        crate::text::push_char(&mut r, hex_digit_exec(b[i] % 16));
        i = i + 1;
    }
    assert(b@.take(i as int) == b@);
    r
}

/// The configuration of a Trojan client.
#[derive(Debug, Clone)]
pub struct ClientConfig {
    pub password: String,
}

/// A server configuration's inner part: the name to present and the
/// password.
#[derive(Debug, Clone)]
pub struct BundleConfigInner {
    pub sni: Option<String>,
    pub password: String,
}

/// A server, given in parts or as a `trojan://` URL.
#[derive(Debug)]
pub enum BundleConfig {
    Config { server: Option<DestAddr>, inner: BundleConfigInner },
    Url { url: String },
}

/// Why no request could be made.
#[derive(Debug, Clone, Copy, PartialEq, Eq, Structural)]
pub enum TrojanError {
    /// The destination has neither a name nor an address.
    NoIp,
    /// The destination has no port.
    NoPort,
}

/// The address of the request: type 3, a length byte (modulo 256) and the
/// name; else type 1 and four octets, or type 4 and sixteen.
pub open spec fn trojan_address(dest: DestView) -> Option<Seq<u8>> {
    match dest.domain {
        Some(d) => Some(seq![3u8, (encode_utf8(d).len() % 256) as u8] + encode_utf8(d)),
        None => match dest.ip {
            Some(IpAddr::V4(a)) => Some(seq![1u8] + IpAddr::V4(a).octets()),
            Some(IpAddr::V6(a)) => Some(seq![4u8] + IpAddr::V6(a).octets()),
            None => None,
        },
    }
}

/// The start of every connection: the hashed password, CRLF, `CONNECT`,
/// the address, the port and CRLF.
pub open spec fn spec_request(password: Seq<char>, dest: DestView) -> Result<Seq<u8>, TrojanError> {
    match trojan_address(dest) {
        None => Err(TrojanError::NoIp),
        Some(a) => match dest.port {
            None => Err(TrojanError::NoPort),
            Some(p) => Ok(encode_utf8(password) + seq![0x0du8, 0x0a, 0x01] + a + be_bytes(p as int, 2) + seq![0x0du8, 0x0a]),
        },
    }
}

/// The Trojan client, holding the hex SHA-224 of its password.
#[derive(Debug)]
pub struct ClientProcessor {
    pub password: String,
}

impl ClientProcessor {
    /// Hashes the password with SHA-224 and keeps its hexadecimal text.
    pub fn new(config: ClientConfig) -> (r: Self)
        ensures
            r.password@ == hex_text(sha224_digest(encode_utf8(config.password@))),
    {
        let h = sha224(config.password.as_str().as_bytes());
        ClientProcessor { password: hex_encode(h.as_slice()) }
    }

    /// The bytes that go before the payload of a connection.
    pub fn request(&self, conn: &Connection) -> (r: Result<Vec<u8>, TrojanError>)
        ensures
            match spec_request(self.password@, conn@.dest) {
                Ok(b) => r matches Ok(v) && v@ == b,
                Err(e) => r == Err::<Vec<u8>, TrojanError>(e),
            },
    {
        let mut out: Vec<u8> = Vec::new();
        push_slice(&mut out, self.password.as_str().as_bytes());
        out.push(0x0d);
        out.push(0x0a);
        out.push(0x01);
        let ghost head = out@;
        match &conn.dest_addr.domain {
            Some(d) => {
                let b = d.as_str().as_bytes();
                out.push(3);
                out.push((b.len() % 256) as u8);
                push_slice(&mut out, b);
            },
            None => match &conn.dest_addr.ip {
                Some(ip) => {
                    match ip {
                        IpAddr::V4(_) => out.push(1),
                        IpAddr::V6(_) => out.push(4),
                    }
                    push_ip_octets(&mut out, ip);
                },
                None => return Err(TrojanError::NoIp),
            },
        }
        let ghost addr = out@.skip(head.len() as int);
        assert(head + addr == out@);
        assert(trojan_address(conn@.dest) == Some(addr));
        let port = match conn.dest_addr.port {
            Some(p) => p,
            None => return Err(TrojanError::NoPort),
        };
        push_be(&mut out, port as u128, 2);
        out.push(0x0d);
        out.push(0x0a);
        Ok(out)
    }
}

} // verus!
