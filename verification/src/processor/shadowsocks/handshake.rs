//! The Shadowsocks request header: the destination address, in the SOCKS5
//! address encoding, followed by the port.
use vstd::prelude::*;
use crate::plumber::{Plumber, ProcessorKind};
use vstd::utf8::encode_utf8;
use crate::bytes::{be_bytes, push_be, push_slice};
use crate::net::{DestAddr, DestError, DestView, IpAddr, push_ip_octets};
use crate::utils::{IoError, io_other_error};

verus! {

/// Registers the processor as `ss_handshake_client`.
pub fn register(plumber: &mut Plumber)
    ensures
        final(plumber)@ == old(plumber)@.push(("ss_handshake_client"@, ProcessorKind::SsHandshakeClient)),
{
    plumber.register("ss_handshake_client", ProcessorKind::SsHandshakeClient);
}

/// Prepends the destination header to the first write of a Shadowsocks
/// connection.
#[derive(Debug)]
pub struct ShadowsocksClientHandshakeProcessor {}

/// Why the length of a header cannot be told.
pub enum HeaderLenError {
    /// Fewer bytes are at hand than the header takes.
    Incomplete,
    /// The address type byte is none of 1, 3, 4.
    InvalidAddrType,
}

/// The length of the header at the start of `buf`, or why it cannot be told.
pub open spec fn spec_header_len(buf: Seq<u8>) -> Result<nat, HeaderLenError> {
    if buf.len() < 4 {
        Err(HeaderLenError::Incomplete)
    } else {
        let expected: nat = if buf[0] == 3 {
            (2 + buf[1] + 2) as nat
        } else if buf[0] == 1 {
            7
        } else if buf[0] == 4 {
            19
        } else {
            0
        };
        if expected == 0 {
            Err(HeaderLenError::InvalidAddrType)
        } else if buf.len() < expected {
            Err(HeaderLenError::Incomplete)
        } else {
            Ok(expected)
        }
    }
}

/// The SOCKS5 address encoding of a destination: a domain as type 3, its
/// UTF-8 length in one byte (taken modulo 256) and its bytes; otherwise an
/// IPv4 address as type 1 or an IPv6 address as type 4, then the octets.
pub open spec fn socks_address(dest: DestView) -> Result<Seq<u8>, DestError> {
    match dest.domain {
        Some(d) => Ok(seq![3u8, (encode_utf8(d).len() % 256) as u8] + encode_utf8(d)),
        None => match dest.ip {
            Some(IpAddr::V4(a)) => Ok(seq![1u8] + be_bytes(a as int, 4)),
            Some(IpAddr::V6(a)) => Ok(seq![4u8] + be_bytes(a as int, 16)),
            None => Err(DestError::NoIp),
        },
    }
}

/// The Shadowsocks request header: the address, then the port big-endian.
pub open spec fn spec_request_header(dest: DestView) -> Result<Seq<u8>, DestError> {
    match socks_address(dest) {
        Err(e) => Err(e),
        Ok(a) => match dest.port {
            Some(p) => Ok(a + be_bytes(p as int, 2)),
            None => Err(DestError::NoPort),
        },
    }
}

/// Appends the SOCKS5 encoding of the destination's address.
pub fn push_socks_address(out: &mut Vec<u8>, dest: &DestAddr) -> (r: Result<(), DestError>)
    ensures
        match socks_address(dest@) {
            Ok(a) => r is Ok && final(out)@ == old(out)@ + a,
            Err(e) => r == Err::<(), DestError>(e),
        },
{
    match &dest.domain {
        Some(domain) => {
            let bytes = domain.as_str().as_bytes();
            out.push(3);
            out.push((bytes.len() % 256) as u8);
            push_slice(out, bytes);
            Ok(())
        },
        None => {
            let ip = dest.ip_or_error()?;
            match ip {
                IpAddr::V4(_) => out.push(1),
                IpAddr::V6(_) => out.push(4),
            }
            push_ip_octets(out, &ip);
            Ok(())
        },
    }
}

impl ShadowsocksClientHandshakeProcessor {
    pub fn new() -> (r: Self) {
        ShadowsocksClientHandshakeProcessor {}
    }

    /// The length of the address header at the start of `buf`.
    pub fn header_len(buf: &[u8]) -> (r: Result<usize, IoError>)
        requires
            !(buf@.len() >= 4 && buf@[0] == 3 && buf@[1] > 251),
        ensures
            match spec_header_len(buf@) {
                Ok(n) => r == Ok::<usize, IoError>(n as usize),
                Err(HeaderLenError::Incomplete) => r matches Err(IoError::Other(m)) && m@ == "header incomplete"@,
                Err(HeaderLenError::InvalidAddrType) => r matches Err(IoError::Other(m)) && m@ == "invalid addr type"@,
            },
    {
        if buf.len() < 4 {
            return Err(io_other_error("header incomplete"));
        }
        let expected_len = if buf[0] == 3 {
            (2 + buf[1] + 2) as usize
        } else if buf[0] == 1 {
            7
        } else if buf[0] == 4 {
            19
        } else {
            return Err(io_other_error("invalid addr type"));
        };
        if buf.len() < expected_len {
            return Err(io_other_error("header incomplete"));
        }
        Ok(expected_len)
    }

    /// The header that is sent ahead of the first payload.
    pub fn request_header(dest: &DestAddr) -> (r: Result<Vec<u8>, DestError>)
        ensures
            match spec_request_header(dest@) {
                Ok(h) => r matches Ok(v) && v@ == h,
                Err(e) => r matches Err(f) && f == e,
            },
    {
        let mut buf: Vec<u8> = Vec::new();
        push_socks_address(&mut buf, dest)?;
        let port = dest.port_or_error()?;
        push_be(&mut buf, port as u128, 2);
        assert(buf@ == Seq::<u8>::empty() + buf@);
        Ok(buf)
    }
}

/// The header that `request_header` makes is read back whole by
/// `header_len`, for a destination whose name (if any) is at most 255
/// bytes long.
pub proof fn lemma_header_len_of_request(dest: DestView)
    requires
        spec_request_header(dest) is Ok,
        dest.domain matches Some(d) ==> encode_utf8(d).len() < 256,
    ensures
        spec_header_len(spec_request_header(dest)->Ok_0) == Ok::<nat, HeaderLenError>(spec_request_header(dest)->Ok_0.len()),
{
    let h = spec_request_header(dest)->Ok_0;
    match dest.domain {
        Some(d) => {
            let n = encode_utf8(d).len();
            assert(h[0] == 3u8);
            assert(h[1] == (n % 256) as u8);
            assert(h.len() == 2 + n + 2);
        },
        None => {},
    }
}

} // verus!
