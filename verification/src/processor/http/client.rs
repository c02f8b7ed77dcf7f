//! The HTTP proxy client: asks the next proxy to `CONNECT` and waits for
//! its reply.
use vstd::prelude::*;
use crate::net::{DestView, ip_text, push_ip};
use crate::plumber::{Plumber, ProcessorKind};
use crate::router::matching::Connection;
use crate::text::{decimal, push_decimal};

verus! {

/// Registers the client as `http_proxy_client`.
pub fn register(plumber: &mut Plumber)
    ensures
        final(plumber)@ == old(plumber)@.push(("http_proxy_client"@, ProcessorKind::HttpProxyClient)),
{
    plumber.register("http_proxy_client", ProcessorKind::HttpProxyClient);
}

/// What `httparse::Response::parse` makes of `buf` with room for
/// `max_headers` headers: `Err` where it is no valid response, `Ok(None)`
/// where it is incomplete, otherwise the length of the head.
pub uninterp spec fn http_response_parsed(buf: Seq<u8>, max_headers: nat) -> Result<Option<nat>, ()>;

/// `httparse::Response::parse` with room for `max_headers` headers: the
/// length of a complete head (at most the buffer's), nothing for an
/// incomplete one, or an error.
#[verifier::external_body]
fn parse_response(buf: &[u8], max_headers: usize) -> (r: Result<Option<usize>, ()>)
    ensures
        match r {
            Err(()) => http_response_parsed(buf@, max_headers as nat) == Err::<Option<nat>, ()>(()),
            Ok(None) => http_response_parsed(buf@, max_headers as nat) == Ok::<Option<nat>, ()>(None),
            Ok(Some(n)) => http_response_parsed(buf@, max_headers as nat) == Ok::<Option<nat>, ()>(Some(n as nat))
                && n <= buf@.len(),
        },
{
    let mut headers = vec![httparse::EMPTY_HEADER; max_headers];
    let mut res = httparse::Response::new(&mut headers);
    match res.parse(buf) {
        Ok(httparse::Status::Complete(n)) => Ok(Some(n)),
        Ok(httparse::Status::Partial) => Ok(None),
        Err(_) => Err(()),
    }
}

/// The host the client names: the destination's domain, or else its
/// address as text.
pub open spec fn connect_host(dest: DestView) -> Option<Seq<char>> {
    match dest.domain {
        Some(d) => Some(d),
        None => match dest.ip {
            Some(ip) => Some(ip_text(ip)),
            None => None,
        },
    }
}

/// The `CONNECT` request for a host and port.
pub open spec fn spec_connect_request(host: Seq<char>, port: u16) -> Seq<char> {
    "CONNECT "@ + host + ":"@ + decimal(port as nat) + " HTTP/1.1\r\nHost: "@ + host + "\r\n\r\n"@
}

/// Why the client could not go on.
#[derive(Debug, Clone, Copy, PartialEq, Eq, Structural)]
pub enum HttpClientError {
    /// The destination has neither a name nor an address.
    NoIp,
    /// The destination has no port.
    NoPort,
    /// The reply is no HTTP response.
    Parse,
    /// The connection ended before the reply did.
    Eof,
}

/// The HTTP proxy client: it asks the next proxy to `CONNECT`.
pub struct ClientProcessor {}

impl ClientProcessor {
    pub fn new() -> (r: Self) {
        ClientProcessor {}
    }

    /// The request to send first: `CONNECT host:port` with a `Host` header,
    /// the host being the domain or else the address.
    pub fn connect_request(&self, conn: &Connection) -> (r: Result<String, HttpClientError>)
        ensures
            match connect_host(conn@.dest) {
                None => r == Err::<String, HttpClientError>(HttpClientError::NoIp),
                Some(h) => match conn@.dest.port {
                    None => r == Err::<String, HttpClientError>(HttpClientError::NoPort),
                    Some(p) => r matches Ok(s) && s@ == spec_connect_request(h, p),
                },
            },
    {
        let mut host = String::new();
        match &conn.dest_addr.domain {
            Some(d) => host.append(d.as_str()),
            None => match &conn.dest_addr.ip {
                Some(ip) => push_ip(&mut host, ip),
                None => return Err(HttpClientError::NoIp),
            },
        }
        let port = match conn.dest_addr.port {
            Some(p) => p,
            None => return Err(HttpClientError::NoPort),
        };
        let mut s = String::new();
        s.append("CONNECT ");
        s.append(host.as_str());
        s.append(":");
        push_decimal(&mut s, port as u32);
        s.append(" HTTP/1.1\r\nHost: ");
        s.append(host.as_str());
        s.append("\r\n\r\n");
        Ok(s)
    }

    /// Decides on the bytes read so far (`n` by the last read): `None` to
    /// read more; once the reply's head is complete, how many bytes it
    /// takes, to drop before relaying.
    pub fn on_read(&self, buf: &[u8], n: usize) -> (r: Result<Option<usize>, HttpClientError>)
        ensures
            match http_response_parsed(buf@, 16) {
                Err(()) => r == Err::<Option<usize>, HttpClientError>(HttpClientError::Parse),
                Ok(None) => if n == 0 {
                    r == Err::<Option<usize>, HttpClientError>(HttpClientError::Eof)
                } else {
                    r == Ok::<Option<usize>, HttpClientError>(None)
                },
                Ok(Some(k)) => r matches Ok(Some(m)) && m == k && m <= buf@.len(),
            },
    {
        match parse_response(buf, 16) {
            Err(()) => Err(HttpClientError::Parse),
            Ok(None) => if n == 0 { Err(HttpClientError::Eof) } else { Ok(None) },
            Ok(Some(k)) => Ok(Some(k)),
        }
    }
}

} // verus!
