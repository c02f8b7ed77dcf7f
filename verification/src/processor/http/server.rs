//! The HTTP proxy server: finds the destination in the request (its URL,
//! or else its `Host` header) and answers `CONNECT`.
use vstd::prelude::*;
use vstd::utf8::{decode_utf8, valid_utf8};
use crate::net::{DestAddr, DestView, IpAddr, ip_parse, parse_ip};
use crate::plumber::{Plumber, ProcessorKind};
use crate::router::matching::Connection;
use crate::text::{
    chars_of, eq_ignore_ascii_case, eq_ignore_ascii_case_seq, literal, parse_bounded, parse_uint,
    split, split_on, lemma_split_on_nonempty,
};
use crate::utils::utf8_text;

verus! {

/// Registers the server as `http_proxy_server`.
pub fn register(plumber: &mut Plumber)
    ensures
        final(plumber)@ == old(plumber)@.push(("http_proxy_server"@, ProcessorKind::HttpProxyServer)),
{
    plumber.register("http_proxy_server", ProcessorKind::HttpProxyServer);
}


/// The request line and headers of an HTTP request.
pub struct RequestHead {
    pub method: Option<String>,
    pub path: Option<String>,
    pub headers: Vec<(String, Vec<u8>)>,
}

/// The abstract value of a request head.
pub struct RequestHeadView {
    pub method: Option<Seq<char>>,
    pub path: Option<Seq<char>>,
    pub headers: Seq<(Seq<char>, Seq<u8>)>,
}

pub open spec fn opt_text(s: Option<String>) -> Option<Seq<char>> {
    match s {
        Some(t) => Some(t@),
        None => None,
    }
}

pub open spec fn headers_view(hs: Seq<(String, Vec<u8>)>) -> Seq<(Seq<char>, Seq<u8>)> {
    hs.map_values(|h: (String, Vec<u8>)| (h.0@, h.1@))
}

impl View for RequestHead {
    type V = RequestHeadView;

    open spec fn view(&self) -> RequestHeadView {
        RequestHeadView { method: opt_text(self.method), path: opt_text(self.path), headers: headers_view(self.headers@) }
    }
}

/// What parsing a buffer as a request gives: `Err` where it is no valid
/// request; otherwise the length of the head where it is complete (`None`
/// where it is not), and the head as far as it was read.
pub open spec fn request_parse_view(r: Result<(Option<usize>, RequestHead), ()>) -> Result<(Option<nat>, RequestHeadView), ()> {
    match r {
        Err(()) => Err(()),
        Ok((None, h)) => Ok((None, h@)),
        Ok((Some(n), h)) => Ok((Some(n as nat), h@)),
    }
}

/// What `httparse::Request::parse` makes of `buf` with room for
/// `max_headers` headers.
pub uninterp spec fn http_request_parsed(buf: Seq<u8>, max_headers: nat) -> Result<(Option<nat>, RequestHeadView), ()>;

/// `httparse::Request::parse` with room for `max_headers` headers: an
/// error (also where there are more headers), or the head's length where
/// the head is complete (at most the buffer's), with the method, the path
/// and the headers the parser filled in. For an incomplete head those are
/// the header lines read whole so far, followed by the empty entries left
/// of the room given.
#[verifier::external_body]
pub(crate) fn parse_request(buf: &[u8], max_headers: usize) -> (r: Result<(Option<usize>, RequestHead), ()>)
    ensures
        request_parse_view(r) == http_request_parsed(buf@, max_headers as nat),
        r matches Ok((Some(n), _)) ==> n <= buf@.len(),
{
    let mut headers = vec![httparse::EMPTY_HEADER; max_headers];
    let mut req = httparse::Request::new(&mut headers);
    let status = match req.parse(buf) {
        Ok(httparse::Status::Complete(n)) => Some(n),
        Ok(httparse::Status::Partial) => None,
        Err(_) => return Err(()),
    };
    Ok((status, RequestHead {
        method: req.method.map(String::from),
        path: req.path.map(String::from),
        headers: req.headers.iter().map(|h| (String::from(h.name), h.value.to_vec())).collect(),
    }))
}

/// What `url::Url::parse` makes of `text`: `None` where it is no URL,
/// otherwise its host (a domain, or an address, or neither) and
/// `port_or_known_default`.
pub uninterp spec fn url_target(text: Seq<char>) -> Option<(Option<Seq<char>>, Option<IpAddr>, Option<u16>)>;

pub open spec fn url_target_view(r: Option<(Option<String>, Option<IpAddr>, Option<u16>)>) -> Option<(Option<Seq<char>>, Option<IpAddr>, Option<u16>)> {
    match r {
        None => None,
        Some((d, ip, port)) => Some((opt_text(d), ip, port)),
    }
}

/// `url::Url::parse`, then `host` and `port_or_known_default`. A host is
/// a domain or an address, never both.
#[verifier::external_body]
fn parse_url_target(text: &str) -> (r: Option<(Option<String>, Option<IpAddr>, Option<u16>)>)
    ensures
        url_target_view(r) == url_target(text@),
        r matches Some((d, ip, _)) ==> !(d is Some && ip is Some),
{
    let url = url::Url::parse(text).ok()?;
    let (d, ip) = match url.host() {
        None => (None, None),
        Some(url::Host::Domain(s)) => (Some(String::from(s)), None),
        Some(url::Host::Ipv4(a)) => (None, Some(IpAddr::V4(u32::from(a)))),
        Some(url::Host::Ipv6(a)) => (None, Some(IpAddr::V6(u128::from(a)))),
    };
    Some((d, ip, url.port_or_known_default()))
}

/// The destination after the request's URL: where the path is a URL with
/// a host, that host, and its port or the scheme's (else 80).
pub open spec fn spec_apply_url(dest: DestView, path: Option<Seq<char>>) -> DestView {
    match path {
        None => dest,
        Some(p) => match url_target(p) {
            None => dest,
            Some((d, ip, port)) => if d is None && ip is None {
                dest
            } else {
                DestView {
                    domain: if d is Some { d } else { dest.domain },
                    ip: if ip is Some { ip } else { dest.ip },
                    port: Some(match port { Some(n) => n, None => 80u16 }),
                }
            },
        },
    }
}

/// The port of a `Host` value: what follows the first `:`, where it is a
/// decimal port, else 80.
pub open spec fn host_port(value: Seq<char>) -> u16 {
    let ps = split_on(value, ':');
    if ps.len() > 1 {
        match parse_bounded(ps[1], 10, 0xffff) {
            Some(n) => n as u16,
            None => 80,
        }
    } else {
        80
    }
}

/// The destination after one `Host` value: the port as `host_port` says;
/// the part before the first `:` as the address where it spells one, else
/// as the domain.
pub open spec fn spec_apply_host(dest: DestView, value: Seq<char>) -> DestView {
    let host = split_on(value, ':')[0];
    match ip_parse(host) {
        Some(ip) => DestView { ip: Some(ip), port: Some(host_port(value)), ..dest },
        None => DestView { domain: Some(host), port: Some(host_port(value)), ..dest },
    }
}

/// The destination after the headers, in order: each `Host` header (in any
/// case) applied; `false` where a `Host` value is no UTF-8, at which point
/// the rest is not looked at.
pub open spec fn spec_apply_headers(dest: DestView, hs: Seq<(Seq<char>, Seq<u8>)>) -> (DestView, bool)
    decreases hs.len(),
{
    if hs.len() == 0 {
        (dest, true)
    } else {
        let (d, ok) = spec_apply_headers(dest, hs.drop_last());
        let h = hs.last();
        if !ok || !eq_ignore_ascii_case_seq(h.0, "Host"@) {
            (d, ok)
        } else if valid_utf8(h.1) {
            (spec_apply_host(d, decode_utf8(h.1)), true)
        } else {
            (d, false)
        }
    }
}

/// What the server does with a buffer it has read.
pub enum ServerStep {
    /// The request is incomplete: read more.
    NeedMore,
    /// The destination is known: drop the first `consumed` bytes of the
    /// buffer, send `reply` where there is one, and relay the rest.
    Ready { consumed: usize, reply: Option<Vec<u8>> },
}

/// Why the server gave up on a request.
#[derive(Debug, Clone, Copy, PartialEq, Eq, Structural)]
pub enum HttpServerError {
    /// The bytes are no HTTP request.
    Parse,
    /// The connection ended before the request did.
    Eof,
    /// A `Host` value is no UTF-8.
    Utf8,
    /// No usable destination: no or an invalid `Host` header.
    NoHost,
    /// The request has no method.
    NoMethod,
}

/// The answer to a `CONNECT`.
pub open spec fn connect_established() -> Seq<u8> {
    "HTTP/1.1 200 Connection Established\r\n\r\n"@.map_values(|c: char| c as u8)
}

/// What the server decides on `buf` (the last read gave `n` bytes), and
/// the destination it leaves: `Ok(None)` to read more, `Ok(Some((k, c)))`
/// to drop `k` bytes and, where `c`, answer a `CONNECT`.
pub open spec fn spec_server_step(buf: Seq<u8>, n: nat, dest: DestView) -> (Result<Option<(nat, bool)>, HttpServerError>, DestView) {
    match http_request_parsed(buf, 32) {
        Err(()) => (Err(HttpServerError::Parse), dest),
        Ok((None, _)) => if n == 0 { (Err(HttpServerError::Eof), dest) } else { (Ok(None), dest) },
        Ok((Some(len), head)) => {
            let d1 = spec_apply_url(dest, head.path);
            let (d2, ok) = if d1.is_valid() { (d1, true) } else { spec_apply_headers(d1, head.headers) };
            if !ok {
                (Err(HttpServerError::Utf8), d2)
            } else if !d2.is_valid() {
                (Err(HttpServerError::NoHost), d2)
            } else {
                match head.method {
                    None => (Err(HttpServerError::NoMethod), d2),
                    Some(m) => if eq_ignore_ascii_case_seq(m, "CONNECT"@) {
                        (Ok(Some((len, true))), d2)
                    } else {
                        (Ok(Some((0, false))), d2)
                    },
                }
            }
        },
    }
}

/// Applies one `Host` value.
fn apply_host(dest: &mut DestAddr, value: &String)
    ensures
        final(dest)@ == spec_apply_host(old(dest)@, value@),
{
    let cs = chars_of(value.as_str());
    let ps = split(cs.as_slice(), ':');
    proof {
        lemma_split_on_nonempty(value@, ':');
    }
    let port: u16 = if ps.len() > 1 {
        match parse_uint(ps[1].as_slice(), 10, 0xffff) {
            Some(p) => p as u16,
            None => 80,
        }
    } else {
        80
    };
    let host = crate::text::string_from_chars(ps[0].as_slice());
    dest.port = Some(port);
    match parse_ip(host.as_str()) {
        Some(ip) => dest.ip = Some(ip),
        None => dest.domain = Some(host),
    }
}

/// Applies the `Host` headers in order; `false` where one is no UTF-8.
fn apply_headers(dest: &mut DestAddr, hs: &Vec<(String, Vec<u8>)>) -> (ok: bool)
    ensures
        (final(dest)@, ok) == spec_apply_headers(old(dest)@, headers_view(hs@)),
{
    let name = literal("Host");
    let mut i: usize = 0;
    while i < hs.len()
        invariant
            i <= hs@.len(),
            name@ == "Host"@,
            (dest@, true) == spec_apply_headers(old(dest)@, headers_view(hs@).take(i as int)),
        decreases hs.len() - i,
    {
        let ghost pre = headers_view(hs@).take(i as int);
        assert(headers_view(hs@).take(i + 1).drop_last() == pre);
        assert(headers_view(hs@).take(i + 1).last() == (hs@[i as int].0@, hs@[i as int].1@));
        let hn = chars_of(hs[i].0.as_str());
        if eq_ignore_ascii_case(hn.as_slice(), name.as_slice()) {
            match utf8_text(hs[i].1.clone()) {
                Some(v) => apply_host(dest, &v),
                None => {
                    proof {
                        lemma_apply_headers_stuck(old(dest)@, headers_view(hs@), i as int + 1);
                    }
                    return false;
                },
            }
        }
        i = i + 1;
    }
    assert(headers_view(hs@).take(i as int) == headers_view(hs@));
    true
}

/// Once a `Host` value fails, the rest of the headers change nothing.
proof fn lemma_apply_headers_stuck(dest: DestView, hs: Seq<(Seq<char>, Seq<u8>)>, i: int)
    requires
        0 <= i <= hs.len(),
        !spec_apply_headers(dest, hs.take(i)).1,
    ensures
        spec_apply_headers(dest, hs) == spec_apply_headers(dest, hs.take(i)),
    decreases hs.len() - i,
{
    if i < hs.len() {
        assert(hs.take(i + 1).drop_last() == hs.take(i));
        lemma_apply_headers_stuck(dest, hs, i + 1);
    } else {
        assert(hs.take(i) == hs);
    }
}

/// The HTTP proxy server.
pub struct ServerProcessor {}

impl ServerProcessor {
    pub fn new() -> (r: Self) {
        ServerProcessor {}
    }

    /// Decides on the bytes read so far (`n` by the last read): reads
    /// more while the request is incomplete; once it is complete, takes the
    /// destination from its URL or else its `Host` headers, and answers a
    /// `CONNECT` (whose head is then dropped); other requests are relayed
    /// whole.
    pub fn on_read(&self, buf: &[u8], n: usize, conn: &mut Connection) -> (r: Result<ServerStep, HttpServerError>)
        ensures
            final(conn).src_ip == old(conn).src_ip,
            final(conn).typ == old(conn).typ,
            final(conn).inbound_tag@ == old(conn).inbound_tag@,
            final(conn).dest_addr@ == spec_server_step(buf@, n as nat, old(conn).dest_addr@).1,
            match spec_server_step(buf@, n as nat, old(conn).dest_addr@).0 {
                Err(e) => r == Err::<ServerStep, HttpServerError>(e),
                Ok(None) => r matches Ok(ServerStep::NeedMore),
                Ok(Some((k, c))) => r matches Ok(ServerStep::Ready { consumed, reply }) && consumed == k
                    && (if c { reply matches Some(b) && b@ == connect_established() } else { reply is None }),
            },
    {
        let parsed = parse_request(buf, 32);
        match parsed {
            Err(()) => Err(HttpServerError::Parse),
            Ok((None, _)) => if n == 0 { Err(HttpServerError::Eof) } else { Ok(ServerStep::NeedMore) },
            Ok((Some(len), head)) => {
                if let Some(path) = &head.path {
                    match parse_url_target(path.as_str()) {
                        Some((d, ip, port)) => {
                            if d.is_some() || ip.is_some() {
                                if d.is_some() {
                                    conn.dest_addr.domain = d;
                                }
                                if ip.is_some() {
                                    conn.dest_addr.ip = ip;
                                }
                                conn.dest_addr.port = Some(match port { Some(p) => p, None => 80 });
                            }
                        },
                        None => {},
                    }
                }
                if !conn.dest_addr.is_valid() {
                    if !apply_headers(&mut conn.dest_addr, &head.headers) {
                        return Err(HttpServerError::Utf8);
                    }
                }
                if !conn.dest_addr.is_valid() {
                    return Err(HttpServerError::NoHost);
                }
                match &head.method {
                    None => Err(HttpServerError::NoMethod),
                    Some(m) => {
                        let mc = chars_of(m.as_str());
                        let connect = literal("CONNECT");
                        if eq_ignore_ascii_case(mc.as_slice(), connect.as_slice()) {
                            Ok(ServerStep::Ready { consumed: len, reply: Some(connect_established_bytes()) })
                        } else {
                            Ok(ServerStep::Ready { consumed: 0, reply: None })
                        }
                    },
                }
            },
        }
    }
}

fn connect_established_bytes() -> (r: Vec<u8>)
    ensures
        r@ == connect_established(),
{
    let s = "HTTP/1.1 200 Connection Established\r\n\r\n";
    let cs = chars_of(s);
    let mut r: Vec<u8> = Vec::new();
    let mut i: usize = 0;
    while i < cs.len()
        invariant
            i <= cs@.len(),
            cs@ == s@,
            r@ == cs@.take(i as int).map_values(|c: char| c as u8),
        decreases cs.len() - i,
    {
        r.push(cs[i] as u8);
        assert(cs@.take(i + 1).map_values(|c: char| c as u8) =~= cs@.take(i as int).map_values(|c: char| c as u8).push(cs@[i as int] as u8));
        i = i + 1;
    }
    assert(cs@.take(cs@.len() as int) == cs@);
    r
}

} // verus!
