//! Addresses: IP addresses, the destination of a proxied connection, and the
//! host/port pairs that the protocols carry.
use vstd::prelude::*;
use std::str::FromStr;
use crate::bytes::{be_bytes, push_be};
use crate::text::{chars_of, push_char, push_decimal, decimal};

verus! {

/// An IPv4 or IPv6 address, as the number its octets spell in network
/// (big-endian) order.
#[derive(Debug, Clone, Copy, PartialEq, Eq, Structural)]
pub enum IpAddr {
    V4(u32),
    V6(u128),
}

impl IpAddr {
    /// The octets of the address, in network order.
    pub open spec fn octets(self) -> Seq<u8> {
        match self {
            IpAddr::V4(a) => be_bytes(a as int, 4),
            IpAddr::V6(a) => be_bytes(a as int, 16),
        }
    }
}

/// What `core::net::IpAddr::from_str` makes of the text `s`.
pub uninterp spec fn ip_parse(s: Seq<char>) -> Option<IpAddr>;

/// How `core::net::Ipv6Addr` displays the address with this number.
pub uninterp spec fn ipv6_text(addr: u128) -> Seq<char>;

/// `core::net::IpAddr::from_str`: the address that `s` spells, if any.
#[verifier::external_body]
pub fn parse_ip(s: &str) -> (r: Option<IpAddr>)
    ensures
        r == ip_parse(s@),
{
    match core::net::IpAddr::from_str(s) {
        Ok(core::net::IpAddr::V4(a)) => Some(IpAddr::V4(u32::from(a))),
        Ok(core::net::IpAddr::V6(a)) => Some(IpAddr::V6(u128::from(a))),
        Err(_) => None,
    }
}

/// `Display` of `core::net::Ipv6Addr`.
#[verifier::external_body]
fn push_ipv6(s: &mut String, addr: u128)
    ensures
        final(s)@ == old(s)@ + ipv6_text(addr),
{
    s.push_str(&format!("{}", core::net::Ipv6Addr::from(addr)));
}

/// Appends the octets of `ip`, in network order.
pub fn push_ip_octets(out: &mut Vec<u8>, ip: &IpAddr)
    ensures
        final(out)@ == old(out)@ + ip.octets(),
{
    match ip {
        IpAddr::V4(a) => push_be(out, *a as u128, 4),
        IpAddr::V6(a) => push_be(out, *a, 16),
    }
}

/// The dotted decimal text of an IPv4 address.
pub open spec fn ipv4_text(a: u32) -> Seq<char> {
    decimal((a / 0x100_0000) as nat) + seq!['.'] + decimal((a / 0x1_0000 % 256) as nat) + seq!['.']
        + decimal((a / 0x100 % 256) as nat) + seq!['.'] + decimal((a % 256) as nat)
}

/// The text of an IP address, as `Display` writes it.
pub open spec fn ip_text(ip: IpAddr) -> Seq<char> {
    match ip {
        IpAddr::V4(a) => ipv4_text(a),
        IpAddr::V6(a) => ipv6_text(a),
    }
}

/// Appends the text of `ip` to `s`.
pub fn push_ip(s: &mut String, ip: &IpAddr)
    ensures
        final(s)@ == old(s)@ + ip_text(*ip),
{
    match ip {
        IpAddr::V4(a) => {
            let a = *a;
            push_decimal(s, a / 0x100_0000);
            push_char(s, '.');
            push_decimal(s, a / 0x1_0000 % 256);
            push_char(s, '.');
            push_decimal(s, a / 0x100 % 256);
            push_char(s, '.');
            push_decimal(s, a % 256);
        },
        IpAddr::V6(a) => push_ipv6(s, *a),
    }
}

/// The abstract value of a destination: what is known of its host and port.
pub struct DestView {
    pub domain: Option<Seq<char>>,
    pub ip: Option<IpAddr>,
    pub port: Option<u16>,
}

/// The destination of a connection, as far as it is known: a domain name, an
/// IP address (either, both or neither), and a port.
#[derive(Debug, Clone)]
pub struct DestAddr {
    pub domain: Option<String>,
    pub ip: Option<IpAddr>,
    pub port: Option<u16>,
}

impl View for DestAddr {
    type V = DestView;

    open spec fn view(&self) -> DestView {
        DestView {
            domain: match self.domain {
                Some(d) => Some(d@),
                None => None,
            },
            ip: self.ip,
            port: self.port,
        }
    }
}

/// Why a destination cannot be used.
#[derive(Debug, Clone, Copy, PartialEq, Eq, Structural)]
pub enum DestError {
    /// No IP address is known.
    NoIp,
    /// No port is known.
    NoPort,
}

impl DestView {
    /// A destination is usable when it has a host (name or address) and a port.
    pub open spec fn is_valid(self) -> bool {
        (self.domain is Some || self.ip is Some) && self.port is Some
    }
}

impl DestAddr {
    /// A destination of which nothing is known yet.
    pub fn new() -> (d: DestAddr)
        ensures
            d@.domain is None,
            d@.ip is None,
            d@.port is None,
    {
        DestAddr { domain: None, ip: None, port: None }
    }

    /// A copy of the destination.
    pub fn copy(&self) -> (r: DestAddr)
        ensures
            r@ == self@,
    {
        let domain = match &self.domain {
            Some(d) => Some(d.clone()),
            None => None,
        };
        DestAddr { domain, ip: self.ip, port: self.port }
    }

    /// Sets the domain name; the address and port are kept.
    pub fn set_domain(&mut self, domain: &str)
        ensures
            final(self)@.domain == Some(domain@),
            final(self)@.ip == old(self)@.ip,
            final(self)@.port == old(self)@.port,
    {
        self.domain = Some(domain.to_owned());
    }

    /// Sets the IP address; the name and port are kept.
    pub fn set_ip(&mut self, ip: IpAddr)
        ensures
            final(self)@.ip == Some(ip),
            final(self)@.domain == old(self)@.domain,
            final(self)@.port == old(self)@.port,
    {
        self.ip = Some(ip);
    }

    /// Sets the port; the host is kept.
    pub fn set_port(&mut self, port: u16)
        ensures
            final(self)@.port == Some(port),
            final(self)@.domain == old(self)@.domain,
            final(self)@.ip == old(self)@.ip,
    {
        self.port = Some(port);
    }

    /// Sets the host from text: an IP address where the text spells one,
    /// otherwise a domain name.
    pub fn set_host_from_str(&mut self, host: &str)
        ensures
            match ip_parse(host@) {
                Some(ip) => final(self)@.ip == Some(ip) && final(self)@.domain == old(self)@.domain,
                None => final(self)@.domain == Some(host@) && final(self)@.ip == old(self)@.ip,
            },
            final(self)@.port == old(self)@.port,
    {
        match parse_ip(host) {
            Some(ip) => self.set_ip(ip),
            None => self.set_domain(host),
        }
    }

    /// Whether the destination has a host and a port.
    pub fn is_valid(&self) -> (r: bool)
        ensures
            r == self@.is_valid(),
    {
        (self.domain.is_some() || self.ip.is_some()) && self.port.is_some()
    }

    /// The IP address, or an error where there is none.
    pub fn ip_or_error(&self) -> (r: Result<IpAddr, DestError>)
        ensures
            match self@.ip {
                Some(ip) => r == Ok::<IpAddr, DestError>(ip),
                None => r == Err::<IpAddr, DestError>(DestError::NoIp),
            },
    {
        match self.ip {
            Some(ip) => Ok(ip),
            None => Err(DestError::NoIp),
        }
    }

    /// The port, or an error where there is none.
    pub fn port_or_error(&self) -> (r: Result<u16, DestError>)
        ensures
            match self@.port {
                Some(p) => r == Ok::<u16, DestError>(p),
                None => r == Err::<u16, DestError>(DestError::NoPort),
            },
    {
        match self.port {
            Some(p) => Ok(p),
            None => Err(DestError::NoPort),
        }
    }
}

/// A host: a domain name or an IP address.
#[derive(Debug, Clone)]
pub enum Address {
    Domain(String),
    Ip(IpAddr),
}

/// A host and a port.
#[derive(Debug, Clone)]
pub struct SocketAddress {
    pub addr: Address,
    pub port: u16,
}

/// The text of a host, as `Display` writes it.
pub open spec fn address_text(a: Address) -> Seq<char> {
    match a {
        Address::Domain(s) => s@,
        Address::Ip(ip) => ip_text(ip),
    }
}

impl Address {
    /// The text of the host.
    pub fn to_text(&self) -> (s: String)
        ensures
            s@ == address_text(*self),
    {
        match self {
            Address::Domain(d) => d.clone(),
            Address::Ip(ip) => {
                let mut s = String::new();
                push_ip(&mut s, ip);
                s
            },
        }
    }
}

impl SocketAddress {
    pub fn new(addr: Address, port: u16) -> (r: SocketAddress)
        ensures
            r.addr == addr,
            r.port == port,
    {
        SocketAddress { addr: addr, port: port }
    }

    pub fn new_domain(domain: &str, port: u16) -> (r: SocketAddress)
        ensures
            r.addr matches Address::Domain(d) && d@ == domain@,
            r.port == port,
    {
        SocketAddress::new(Address::Domain(domain.to_owned()), port)
    }

    pub fn new_ip(ip: IpAddr, port: u16) -> (r: SocketAddress)
        ensures
            r.addr == Address::Ip(ip),
            r.port == port,
    {
        SocketAddress::new(Address::Ip(ip), port)
    }

    /// The text `host:port`, as `Display` writes it.
    pub fn to_text(&self) -> (s: String)
        ensures
            s@ == address_text(self.addr) + seq![':'] + decimal(self.port as nat),
    {
        let mut s = self.addr.to_text();
        push_char(&mut s, ':');
        push_decimal(&mut s, self.port as u32);
        s
    }
}

/// The kinds of stream a listener serves.
#[derive(Debug, Clone, Copy, PartialEq, Eq, Structural)]
pub enum StreamType {
    Tcp,
}

impl StreamType {
    /// TCP.
    pub fn default() -> (r: Self)
        ensures
            r == StreamType::Tcp,
    {
        StreamType::Tcp
    }
}

/// The context shared by the protocol handlers; it holds nothing yet.
#[derive(Debug)]
pub struct Context {}

} // verus!
