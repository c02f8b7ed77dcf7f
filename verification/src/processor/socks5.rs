//! A SOCKS5 server without authentication that accepts `CONNECT`: the
//! greeting is answered with "no authentication", the request gives the
//! destination, and a fixed success reply follows.
use vstd::prelude::*;
use crate::bytes::{be_bytes, be_value, copy_range, read_be, lemma_be_value_bound, lemma_be_bytes_of_value, pow256};
use crate::net::{DestAddr, IpAddr};
use crate::plumber::{Plumber, ProcessorKind};
use crate::router::matching::Connection;
use crate::utils::{lossy_text, utf8_lossy};

verus! {

/// Registers the server as `socks5_server`.
pub fn register(plumber: &mut Plumber)
    ensures
        final(plumber)@ == old(plumber)@.push(("socks5_server"@, ProcessorKind::Socks5Server)),
{
    plumber.register("socks5_server", ProcessorKind::Socks5Server);
}

pub const VERSION: u8 = 5;
pub const METH_NO_AUTH: u8 = 0;
pub const CMD_CONNECT: u8 = 1;
pub const TYPE_IPV4: u8 = 1;
pub const TYPE_IPV6: u8 = 4;
pub const TYPE_DOMAIN: u8 = 3;

/// Why a client was refused.
#[derive(Debug, Clone, Copy, PartialEq, Eq, Structural)]
pub enum Socks5Error {
    /// The greeting names another protocol version.
    UnsupportedVersion(u8),
    /// The request asks for something other than `CONNECT`.
    UnsupportedCommand(u8),
    /// The request's address type is unknown.
    InvalidAtyp(u8),
}

/// The greeting at the start of `buf`: `Ok(None)` while incomplete, else
/// its length (version, method count, methods).
pub open spec fn spec_greeting(buf: Seq<u8>) -> Result<Option<nat>, Socks5Error> {
    if buf.len() < 1 {
        Ok(None)
    } else if buf[0] != VERSION {
        Err(Socks5Error::UnsupportedVersion(buf[0]))
    } else if buf.len() < 2 {
        Ok(None)
    } else if buf.len() < 2 + buf[1] {
        Ok(None)
    } else {
        Ok(Some((2 + buf[1]) as nat))
    }
}

/// The host a request names, and the request's length: an IPv4 address
/// (four octets), an IPv6 address (sixteen), or a name (a length octet and
/// the name, read leniently as UTF-8), each followed by a two-octet port.
pub enum RequestTarget {
    Ip(IpAddr),
    Domain(Seq<char>),
}

/// The request at the start of `buf` (after the greeting): `Ok(None)` while
/// incomplete, else the host, the port and the request's length. Only the
/// command and the address type are checked.
pub open spec fn spec_request(buf: Seq<u8>) -> Result<Option<(RequestTarget, u16, nat)>, Socks5Error> {
    if buf.len() < 4 {
        Ok(None)
    } else if buf[1] != CMD_CONNECT {
        Err(Socks5Error::UnsupportedCommand(buf[1]))
    } else if buf[3] == TYPE_IPV4 {
        if buf.len() < 10 {
            Ok(None)
        } else {
            Ok(Some((RequestTarget::Ip(IpAddr::V4(be_value(buf.subrange(4, 8)) as u32)),
                be_value(buf.subrange(8, 10)) as u16, 10)))
        }
    } else if buf[3] == TYPE_IPV6 {
        if buf.len() < 22 {
            Ok(None)
        } else {
            Ok(Some((RequestTarget::Ip(IpAddr::V6(be_value(buf.subrange(4, 20)) as u128)),
                be_value(buf.subrange(20, 22)) as u16, 22)))
        }
    } else if buf[3] == TYPE_DOMAIN {
        if buf.len() < 5 || buf.len() < 7 + buf[4] {
            Ok(None)
        } else {
            let l = buf[4] as int;
            Ok(Some((RequestTarget::Domain(lossy_text(buf.subrange(5, 5 + l))),
                be_value(buf.subrange(5 + l, 7 + l)) as u16, (7 + l) as nat)))
        }
    } else {
        Err(Socks5Error::InvalidAtyp(buf[3]))
    }
}

/// The SOCKS5 server.
pub struct Socks5ProxyServerProcessor {}

impl Socks5ProxyServerProcessor {
    pub fn new() -> (r: Self) {
        Socks5ProxyServerProcessor {}
    }

    /// Reads the greeting from the bytes received so far: `None` to read
    /// more, else how many bytes it takes. The methods offered are ignored.
    pub fn read_greeting(&self, buf: &[u8]) -> (r: Result<Option<usize>, Socks5Error>)
        ensures
            match spec_greeting(buf@) {
                Ok(None) => r == Ok::<Option<usize>, Socks5Error>(None),
                Ok(Some(n)) => r matches Ok(Some(m)) && m == n,
                Err(e) => r == Err::<Option<usize>, Socks5Error>(e),
            },
    {
        if buf.len() < 1 {
            return Ok(None);
        }
        if buf[0] != VERSION {
            return Err(Socks5Error::UnsupportedVersion(buf[0]));
        }
        if buf.len() < 2 {
            return Ok(None);
        }
        let n = 2 + buf[1] as usize;
        if buf.len() < n {
            return Ok(None);
        }
        Ok(Some(n))
    }

    /// The answer to a greeting: version 5, no authentication.
    pub fn method_selection(&self) -> (r: Vec<u8>)
        ensures
            r@ == seq![VERSION, METH_NO_AUTH],
    {
        let mut r: Vec<u8> = Vec::new();
        r.push(VERSION);
        r.push(METH_NO_AUTH);
        r
    }

    /// Reads the request from the bytes received after the greeting: `None`
    /// to read more; once complete, sets the connection's destination (the
    /// address or name, and the port) and gives the request's length.
    pub fn read_request(&self, buf: &[u8], conn: &mut Connection) -> (r: Result<Option<usize>, Socks5Error>)
        ensures
            final(conn).src_ip == old(conn).src_ip,
            final(conn).typ == old(conn).typ,
            final(conn).inbound_tag@ == old(conn).inbound_tag@,
            match spec_request(buf@) {
                Ok(None) => r == Ok::<Option<usize>, Socks5Error>(None) && final(conn).dest_addr@ == old(conn).dest_addr@,
                Err(e) => r == Err::<Option<usize>, Socks5Error>(e) && final(conn).dest_addr@ == old(conn).dest_addr@,
                Ok(Some((target, port, n))) => {
                    &&& r matches Ok(Some(m)) && m == n
                    &&& final(conn).dest_addr@.port == Some(port)
                    &&& match target {
                        RequestTarget::Ip(ip) => final(conn).dest_addr@.ip == Some(ip)
                            && final(conn).dest_addr@.domain == old(conn).dest_addr@.domain,
                        RequestTarget::Domain(d) => final(conn).dest_addr@.domain == Some(d)
                            && final(conn).dest_addr@.ip == old(conn).dest_addr@.ip,
                    }
                },
            },
    {
        if buf.len() < 4 {
            return Ok(None);
        }
        if buf[1] != CMD_CONNECT {
            return Err(Socks5Error::UnsupportedCommand(buf[1]));
        }
        let atyp = buf[3];
        let start: usize;
        if atyp == TYPE_IPV4 {
            if buf.len() < 10 {
                return Ok(None);
            }
            let a = read_be(buf, 4, 4);
            proof {
                lemma_be_value_bound(buf@.subrange(4, 8));
                reveal_with_fuel(pow256, 5);
            }
            conn.dest_addr.set_ip(IpAddr::V4(a as u32));
            start = 8;
        } else if atyp == TYPE_IPV6 {
            if buf.len() < 22 {
                return Ok(None);
            }
            let a = read_be(buf, 4, 16);
            conn.dest_addr.set_ip(IpAddr::V6(a));
            start = 20;
        } else if atyp == TYPE_DOMAIN {
            if buf.len() < 5 || buf.len() < 7 + buf[4] as usize {
                return Ok(None);
            }
            let l = buf[4] as usize;
            let name = copy_range(buf, 5, 5 + l);
            let d = utf8_lossy(name.as_slice());
            conn.dest_addr.set_domain(d.as_str());
            start = 5 + l;
        } else {
            return Err(Socks5Error::InvalidAtyp(atyp));
        }
        let p = read_be(buf, start, 2);
        proof {
            lemma_be_value_bound(buf@.subrange(start as int, start + 2));
            reveal_with_fuel(pow256, 3);
        }
        conn.dest_addr.set_port(p as u16);
        Ok(Some(start + 2))
    }

    /// The reply to an accepted request: success, with a fixed bound
    /// address.
    pub fn connect_reply(&self) -> (r: Vec<u8>)
        ensures
            r@ == seq![0x05u8, 0x00, 0x00, 0x01, 0x00, 0x00, 0x00, 0x00, 0x08, 0x04],
    {
        let mut r: Vec<u8> = Vec::new();
        r.push(0x05);
        r.push(0x00);
        r.push(0x00);
        r.push(0x01);
        r.push(0x00);
        r.push(0x00);
        r.push(0x00);
        r.push(0x00);
        r.push(0x08);
        r.push(0x04);
        assert(r@ =~= seq![0x05u8, 0x00, 0x00, 0x01, 0x00, 0x00, 0x00, 0x00, 0x08, 0x04]);
        r
    }
}

/// A complete request's destination is its address bytes: the address
/// the server takes has, as its octets in network order, exactly the bytes
/// after the address type (four for type 1, an IPv4 address; sixteen for
/// type 4, an IPv6 address); a name is the bytes that its length byte
/// counts; and the port's two big-endian bytes are the last two bytes of the
/// request.
pub proof fn lemma_request_destination(buf: Seq<u8>)
    ensures
        spec_request(buf) matches Ok(Some((target, port, n))) ==> {
            &&& 7 <= n <= buf.len()
            &&& be_bytes(port as int, 2) == buf.subrange(n - 2, n as int)
            &&& match target {
                RequestTarget::Ip(ip) => {
                    &&& ip.octets() == buf.subrange(4, n - 2)
                    &&& (ip is V4 <==> buf[3] == TYPE_IPV4)
                    &&& (ip is V6 <==> buf[3] == TYPE_IPV6)
                },
                RequestTarget::Domain(d) => buf[3] == TYPE_DOMAIN && buf[4] == n - 7
                    && d == lossy_text(buf.subrange(5, n - 2)),
            }
        },
{
    if let Ok(Some((target, port, n))) = spec_request(buf) {
        reveal_with_fuel(pow256, 17);
        let ps = buf.subrange(n - 2, n as int);
        lemma_be_value_bound(ps);
        lemma_be_bytes_of_value(ps);
        assert(be_value(ps) < 0x1_0000);
        if buf[3] == TYPE_IPV4 {
            let a = buf.subrange(4, 8);
            lemma_be_value_bound(a);
            lemma_be_bytes_of_value(a);
            assert(be_value(a) < 0x1_0000_0000);
            assert(ps == buf.subrange(8, 10));
        } else if buf[3] == TYPE_IPV6 {
            let a = buf.subrange(4, 20);
            lemma_be_value_bound(a);
            lemma_be_bytes_of_value(a);
            assert(be_value(a) < 0x1_0000_0000_0000_0000_0000_0000_0000_0000);
            assert(ps == buf.subrange(20, 22));
        } else {
            let l = buf[4] as int;
            assert(ps == buf.subrange(5 + l, 7 + l));
        }
    }
}

} // verus!
