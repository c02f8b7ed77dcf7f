//! A VMess client session: its keys, the encrypted request header, and the
//! check of the response header.
use vstd::prelude::*;
use vstd::utf8::encode_utf8;
use crate::bytes::{be_bytes, push_be, push_slice, copy_range};
use crate::crypto::{
    HashKind, aes128_cfb_decrypt, aes128_cfb_encrypt,
    fnv1a32, fnv1a32_hash, hash_bytes, hmac_md5_tag, md5_digest, random_below, random_bytes, sign_bytes,
};
use crate::cfb::{cfb_decrypted, cfb_encrypted, lemma_cfb_decrypts};
use crate::net::{DestView, IpAddr, push_ip_octets};
use crate::router::matching::{Connection, TransportType};
use crate::utils::{ClockError, unix_ts};
use super::alter_id::{UserId, uuid_as_bytes, uuid_bytes};
use super::SecurityType;

verus! {

/// The keys and values of one VMess connection.
#[derive(Debug, Clone)]
pub struct ClientSession {
    pub auth_info: Vec<u8>,
    pub cmd_key: Vec<u8>,
    pub cmd_iv: Vec<u8>,
    pub request_key: Vec<u8>,
    pub request_iv: Vec<u8>,
    pub response_key: Vec<u8>,
    pub response_iv: Vec<u8>,
    pub auth_v: u8,
}

/// The eight big-endian bytes of a timestamp, four times over.
pub open spec fn timestamp_x4(ts: u64) -> Seq<u8> {
    let t = be_bytes(ts as int, 8);
    t + t + t + t
}

/// Why a request header could not be made.
#[derive(Debug, Clone, Copy, PartialEq, Eq, Structural)]
pub enum RequestHeaderError {
    /// The security must be resolved before a header is made.
    AutoSecurity,
    /// The destination has no port.
    NoPort,
    /// The destination has neither a name nor an address.
    NoHost,
}

/// Why a response header was refused.
#[derive(Debug, Clone, Copy, PartialEq, Eq, Structural)]
pub enum ResponseHeaderError {
    /// Fewer than four bytes.
    TooShort,
    /// The first byte is not the session's response value.
    AuthMismatch,
    /// The server asks for a dynamic port, which is not supported.
    DynamicPort,
}

/// The security code of the header.
pub open spec fn security_code(sec: SecurityType) -> u8 {
    match sec {
        SecurityType::Aes128Gcm => 0x03,
        _ => 0x04,
    }
}

/// The command code of the header.
pub open spec fn command_code(typ: TransportType) -> u8 {
    match typ {
        TransportType::Tcp => 0x01,
        TransportType::Udp => 0x02,
    }
}

/// The address field: type 2, a length byte (modulo 256) and the name;
/// type 1 and four octets; or type 3 and sixteen octets.
pub open spec fn vmess_address(dest: DestView) -> Option<Seq<u8>> {
    match (dest.domain, dest.ip) {
        (Some(d), _) => Some(seq![0x02u8, (encode_utf8(d).len() % 256) as u8] + encode_utf8(d)),
        (None, Some(IpAddr::V4(a))) => Some(seq![0x01u8] + IpAddr::V4(a).octets()),
        (None, Some(IpAddr::V6(a))) => Some(seq![0x03u8] + IpAddr::V6(a).octets()),
        (None, None) => None,
    }
}

/// Why no request header can be made for this security and connection,
/// whatever the session: the security is unresolved, the port or the host
/// is missing.
pub open spec fn request_header_error(sec: SecurityType, conn: crate::router::matching::ConnView) -> Option<RequestHeaderError> {
    if sec == SecurityType::Auto {
        Some(RequestHeaderError::AutoSecurity)
    } else if conn.dest.port is None {
        Some(RequestHeaderError::NoPort)
    } else if vmess_address(conn.dest) is None {
        Some(RequestHeaderError::NoHost)
    } else {
        None
    }
}

impl ClientSession {
    pub open spec fn wf(&self) -> bool {
        &&& self.auth_info@.len() == 16
        &&& self.cmd_key@.len() == 16
        &&& self.cmd_iv@.len() == 16
        &&& self.request_key@.len() == 16
        &&& self.request_iv@.len() == 16
        &&& self.response_key@.len() == 16
        &&& self.response_iv@.len() == 16
    }

    /// What a session made at time `ts` from these request values holds:
    /// the response key and IV are the MD5 of the request ones, the command
    /// IV the MD5 of the timestamp four times, the authentication the
    /// HMAC-MD5 of the timestamp under the user id.
    pub open spec fn made_from(&self, user: &UserId, req_key: Seq<u8>, req_iv: Seq<u8>, ts: u64) -> bool {
        &&& self.request_key@ == req_key
        &&& self.request_iv@ == req_iv
        &&& self.response_key@ == md5_digest(req_key)
        &&& self.response_iv@ == md5_digest(req_iv)
        &&& self.cmd_iv@ == md5_digest(timestamp_x4(ts))
        &&& self.auth_info@ == hmac_md5_tag(user.id(), be_bytes(ts as int, 8))
        &&& self.cmd_key@ == user.key()
    }

    /// A session from the given request key and IV, time and response value.
    pub fn from_parts(user: &UserId, req_key: &[u8], req_iv: &[u8], ts: u64, auth_v: u8) -> (r: Self)
        requires
            user.wf(),
            req_key@.len() == 16,
            req_iv@.len() == 16,
        ensures
            r.wf(),
            r.made_from(user, req_key@, req_iv@, ts),
            r.auth_v == auth_v,
    {
        let response_key = hash_bytes(HashKind::Md5, req_key);
        let response_iv = hash_bytes(HashKind::Md5, req_iv);
        let mut stamp: Vec<u8> = Vec::new();
        push_be(&mut stamp, ts as u128, 8);
        assert(stamp@ =~= be_bytes(ts as int, 8));
        let mut stamps: Vec<u8> = Vec::new();
        push_slice(&mut stamps, stamp.as_slice());
        push_slice(&mut stamps, stamp.as_slice());
        push_slice(&mut stamps, stamp.as_slice());
        push_slice(&mut stamps, stamp.as_slice());
        assert(stamp@ == be_bytes(ts as int, 8));
        assert(stamps@ =~= timestamp_x4(ts));
        let cmd_iv = hash_bytes(HashKind::Md5, stamps.as_slice());
        assert(req_key@.subrange(0, 16) == req_key@);
        assert(req_iv@.subrange(0, 16) == req_iv@);
        let id = user.uuid();
        let id_bytes = uuid_as_bytes(&id);
        let auth_info = sign_bytes(HashKind::Md5, id_bytes.as_slice(), stamp.as_slice());
        ClientSession {
            auth_info,
            cmd_key: user.cmd_key(),
            cmd_iv,
            request_key: copy_range(req_key, 0, 16),
            request_iv: copy_range(req_iv, 0, 16),
            response_key,
            response_iv,
            auth_v,
        }
    }

    /// A new session for `user` at the current time, with a random request
    /// key, IV and response value; an error where the clock is before 1970.
    pub fn new(user: &UserId) -> (r: Result<Self, ClockError>)
        requires
            user.wf(),
        ensures
            r matches Ok(s) ==> s.wf() && exists|ts: u64| s.made_from(user, s.request_key@, s.request_iv@, ts),
    {
        let req_key = random_bytes(16);
        let req_iv = random_bytes(16);
        let ts = unix_ts()?;
        let v = random_bytes(1);
        let s = Self::from_parts(user, req_key.as_slice(), req_iv.as_slice(), ts, v[0]);
        assert(s.made_from(user, s.request_key@, s.request_iv@, ts));
        Ok(s)
    }

    /// The plaintext of the header after the authentication, without its
    /// checksum: version, request IV and key, response value, options,
    /// padding length and security, command, port, address and padding.
    pub open spec fn header_body(&self, sec: SecurityType, conn_typ: TransportType, port: u16, addr: Seq<u8>, padding: Seq<u8>) -> Seq<u8> {
        seq![0x01u8] + self.request_iv@ + self.request_key@
            + seq![self.auth_v, 0x0du8, (padding.len() * 16 + security_code(sec)) as u8, 0u8, command_code(conn_typ)]
            + be_bytes(port as int, 2) + addr + padding
    }

    /// The request header with the given padding: the authentication, then
    /// the body with its FNV-1a checksum, encrypted with AES-128-CFB under
    /// the command key and IV.
    pub open spec fn spec_request_header(&self, sec: SecurityType, conn: crate::router::matching::ConnView, padding: Seq<u8>)
        -> Result<Seq<u8>, RequestHeaderError>
    {
        if sec == SecurityType::Auto {
            Err(RequestHeaderError::AutoSecurity)
        } else if conn.dest.port is None {
            Err(RequestHeaderError::NoPort)
        } else {
            match vmess_address(conn.dest) {
                None => Err(RequestHeaderError::NoHost),
                Some(addr) => {
                    let body = self.header_body(sec, conn.typ, conn.dest.port->Some_0, addr, padding);
                    Ok(self.auth_info@ + cfb_encrypted(self.cmd_key@, self.cmd_iv@,
                        body + be_bytes(fnv1a32(body) as int, 4)))
                },
            }
        }
    }

    /// Builds the request header with the given padding (under 16 bytes).
    pub fn encode_request_header_with(&self, sec: SecurityType, conn: &Connection, padding: &[u8])
        -> (r: Result<Vec<u8>, RequestHeaderError>)
        requires
            self.wf(),
            padding@.len() < 16,
        ensures
            match self.spec_request_header(sec, conn@, padding@) {
                Ok(h) => r matches Ok(v) && v@ == h,
                Err(e) => r == Err::<Vec<u8>, RequestHeaderError>(e),
            },
    {
        let sec_code: u8 = match sec {
            SecurityType::Aes128Gcm => 0x03,
            SecurityType::Chacha20Poly1305 => 0x04,
            SecurityType::Auto => return Err(RequestHeaderError::AutoSecurity),
        };
        let cmd: u8 = match conn.typ {
            TransportType::Tcp => 0x01,
            TransportType::Udp => 0x02,
        };
        let port = match conn.dest_addr.port {
            Some(p) => p,
            None => return Err(RequestHeaderError::NoPort),
        };
        let mut body: Vec<u8> = Vec::new();
        body.push(0x01);
        push_slice(&mut body, self.request_iv.as_slice());
        push_slice(&mut body, self.request_key.as_slice());
        body.push(self.auth_v);
        body.push(0x0d);
        body.push((padding.len() as u8) * 16 + sec_code);
        body.push(0);
        body.push(cmd);
        push_be(&mut body, port as u128, 2);
        let ghost before_addr = body@;
        match (&conn.dest_addr.domain, &conn.dest_addr.ip) {
            (Some(d), _) => {
                let bytes = d.as_str().as_bytes();
                body.push(0x02);
                body.push((bytes.len() % 256) as u8);
                push_slice(&mut body, bytes);
            },
            (None, Some(ip)) => {
                match ip {
                    IpAddr::V4(_) => body.push(0x01),
                    IpAddr::V6(_) => body.push(0x03),
                }
                push_ip_octets(&mut body, ip);
            },
            (None, None) => return Err(RequestHeaderError::NoHost),
        }
        let ghost addr = body@.skip(before_addr.len() as int);
        assert(before_addr + addr == body@);
        assert(vmess_address(conn@.dest) == Some(addr));
        push_slice(&mut body, padding);
        let ghost plain = body@;
        assert(plain == self.header_body(sec, conn.typ, port, addr, padding@));
        let check = fnv1a32_hash(body.as_slice());
        push_be(&mut body, check as u128, 4);
        aes128_cfb_encrypt(self.cmd_key.as_slice(), self.cmd_iv.as_slice(), &mut body);
        let mut out = copy_range(self.auth_info.as_slice(), 0, 16);
        assert(self.auth_info@.subrange(0, 16) == self.auth_info@);
        out.append(&mut body);
        Ok(out)
    }

    /// Builds the request header with a random number (below 16) of random
    /// padding bytes.
    pub fn encode_request_header(&self, sec: SecurityType, conn: &Connection) -> (r: Result<Vec<u8>, RequestHeaderError>)
        requires
            self.wf(),
        ensures
            match self.spec_request_header(sec, conn@, Seq::empty()) {
                Ok(_) => r matches Ok(v) && exists|padding: Seq<u8>| padding.len() < 16
                    && self.spec_request_header(sec, conn@, padding) == Ok::<Seq<u8>, RequestHeaderError>(v@),
                Err(e) => r == Err::<Vec<u8>, RequestHeaderError>(e),
            },
    {
        let n = random_below(16);
        let mut padding: Vec<u8> = Vec::new();
        let mut i: u32 = 0;
        while i < n
            invariant
                i <= n < 16,
                padding@.len() == i,
            decreases n - i,
        {
            let b = random_below(256);
            padding.push(b as u8);
            i = i + 1;
        }
        let r = self.encode_request_header_with(sec, conn, padding.as_slice());
        match r {
            Ok(v) => {
                assert(self.spec_request_header(sec, conn@, padding@) == Ok::<Seq<u8>, RequestHeaderError>(v@));
                Ok(v)
            },
            Err(e) => Err(e),
        }
    }

    /// The four response-header bytes decrypted: AES-128-CFB under the
    /// response key and IV.
    pub open spec fn spec_response_check(&self, buf: Seq<u8>) -> Result<(), ResponseHeaderError> {
        if buf.len() < 4 {
            Err(ResponseHeaderError::TooShort)
        } else {
            let d = cfb_decrypted(self.response_key@, self.response_iv@, buf.take(4));
            if d[0] != self.auth_v {
                Err(ResponseHeaderError::AuthMismatch)
            } else if d[3] != 0 {
                Err(ResponseHeaderError::DynamicPort)
            } else {
                Ok(())
            }
        }
    }

    /// Checks the response header at the start of `buf`: its first byte
    /// must be the session's response value and its fourth zero.
    pub fn decode_response_header(&self, buf: &[u8]) -> (r: Result<(), ResponseHeaderError>)
        requires
            self.wf(),
        ensures
            r == self.spec_response_check(buf@),
    {
        if buf.len() < 4 {
            return Err(ResponseHeaderError::TooShort);
        }
        let mut head = copy_range(buf, 0, 4);
        aes128_cfb_decrypt(self.response_key.as_slice(), self.response_iv.as_slice(), &mut head);
        if head[0] != self.auth_v {
            return Err(ResponseHeaderError::AuthMismatch);
        }
        if head[3] != 0 {
            return Err(ResponseHeaderError::DynamicPort);
        }
        Ok(())
    }
}

/// A request header is read back by a server holding the command key and
/// IV: after the 16 bytes of authentication, decryption gives the header's
/// body and its FNV-1a checksum.
pub proof fn lemma_request_header_decrypts(s: ClientSession, sec: SecurityType, conn: crate::router::matching::ConnView, padding: Seq<u8>)
    requires
        s.wf(),
        s.spec_request_header(sec, conn, padding) is Ok,
    ensures
        ({
            let h = s.spec_request_header(sec, conn, padding)->Ok_0;
            let body = s.header_body(sec, conn.typ, conn.dest.port->Some_0, vmess_address(conn.dest)->Some_0, padding);
            &&& h.take(16) == s.auth_info@
            &&& cfb_decrypted(s.cmd_key@, s.cmd_iv@, h.skip(16)) == body + be_bytes(fnv1a32(body) as int, 4)
        }),
{
    let h = s.spec_request_header(sec, conn, padding)->Ok_0;
    let body = s.header_body(sec, conn.typ, conn.dest.port->Some_0, vmess_address(conn.dest)->Some_0, padding);
    let plain = body + be_bytes(fnv1a32(body) as int, 4);
    lemma_cfb_decrypts(s.cmd_key@, s.cmd_iv@, plain);
    assert(h == s.auth_info@ + cfb_encrypted(s.cmd_key@, s.cmd_iv@, plain));
    assert(h.take(16) =~= s.auth_info@);
    assert(h.skip(16) =~= cfb_encrypted(s.cmd_key@, s.cmd_iv@, plain));
}

/// A response header that a server made by encrypting the session's
/// response value, any two bytes and a zero under the response key and IV
/// passes the check.
pub proof fn lemma_response_header_accepted(s: ClientSession, b1: u8, b2: u8, rest: Seq<u8>)
    requires
        s.wf(),
    ensures
        s.spec_response_check(cfb_encrypted(s.response_key@, s.response_iv@, seq![s.auth_v, b1, b2, 0u8]) + rest) == Ok::<(), ResponseHeaderError>(()),
{
    let plain = seq![s.auth_v, b1, b2, 0u8];
    let c = cfb_encrypted(s.response_key@, s.response_iv@, plain);
    lemma_cfb_decrypts(s.response_key@, s.response_iv@, plain);
    assert((c + rest).take(4) =~= c);
}

} // verus!
