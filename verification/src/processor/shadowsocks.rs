//! ShadowsocksR: the address handshake, the auth_aes128 framing, the
//! stream ciphers and the `ssr://` URL format.
pub mod handshake;
pub mod auth;
pub mod stream_cipher;
pub mod aead_cipher;
pub mod obfs;

use vstd::prelude::*;
use crate::plumber::{Plumber, ProcessorKind};
use vstd::utf8::{encode_utf8, valid_utf8, decode_utf8};
use crate::crypto::{base64_decode_standard, base64_standard_decoding};
use crate::net::{DestAddr, DestView, ip_parse};
use crate::text::{
    chars_of, string_from_chars, literal, chars_eq, find, find_from, split, split_on, slice_to_vec,
    parse_uint, parse_bounded, lemma_find_from, spec_lines,
};
use crate::utils::{DecodeError, urlsafe_base64_decode_string, spec_urlsafe_base64_decode_string};

verus! {

/// Registers the SSR layers (`ssr_auth_client`, `ss_handshake_client`,
/// `ssr_obfs_client`, `ss_stream_cipher_client`) and then the whole
/// client as `ssr_client`.
pub fn register(plumber: &mut Plumber)
    ensures
        final(plumber)@ == old(plumber)@
            .push(("ssr_auth_client"@, ProcessorKind::SsrAuthClient))
            .push(("ss_handshake_client"@, ProcessorKind::SsHandshakeClient))
            .push(("ssr_obfs_client"@, ProcessorKind::SsrObfsClient))
            .push(("ss_stream_cipher_client"@, ProcessorKind::SsStreamCipherClient))
            .push(("ssr_client"@, ProcessorKind::SsrClient)),
{
    auth::register(plumber);
    handshake::register(plumber);
    obfs::register(plumber);
    stream_cipher::register(plumber);
    plumber.register("ssr_client", ProcessorKind::SsrClient);
}

/// The cipher methods an SSR server may use.
#[derive(Debug, Clone, Copy, PartialEq, Eq, Structural)]
pub enum MethodType {
    Aes256Cfb,
}

/// The SSR protocols (auth layers).
#[derive(Debug, Clone, Copy, PartialEq, Eq, Structural)]
pub enum ProtocolType {
    Origin,
    AuthAes128Md5,
    AuthAes128Sha1,
}

/// The SSR obfuscation layers.
#[derive(Debug, Clone, Copy, PartialEq, Eq, Structural)]
pub enum ObfsType {
    Plain,
    HttpSimple,
}

impl ProtocolType {
    /// No auth layer, unless configured.
    pub fn default() -> (r: Self)
        ensures
            r == ProtocolType::Origin,
    {
        ProtocolType::Origin
    }
}

impl ObfsType {
    /// No obfuscation, unless configured.
    pub fn default() -> (r: Self)
        ensures
            r == ObfsType::Plain,
    {
        ObfsType::Plain
    }
}

/// The protocol that a configuration name denotes.
pub open spec fn protocol_named(name: Seq<char>) -> Option<ProtocolType> {
    if name == "origin"@ {
        Some(ProtocolType::Origin)
    } else if name == "auth_aes128_md5"@ {
        Some(ProtocolType::AuthAes128Md5)
    } else if name == "auth_aes128_sha1"@ {
        Some(ProtocolType::AuthAes128Sha1)
    } else {
        None
    }
}

/// The auth layer a protocol puts on a connection.
pub open spec fn protocol_auth(p: ProtocolType) -> Option<auth::SsrClientAuthType> {
    match p {
        ProtocolType::Origin => None,
        ProtocolType::AuthAes128Md5 => Some(auth::SsrClientAuthType::AuthAes128Md5),
        ProtocolType::AuthAes128Sha1 => Some(auth::SsrClientAuthType::AuthAes128Sha1),
    }
}

/// The protocol a configuration names is the one whose auth layer writes
/// that same name into its headers: the name that the auth layer with digest
/// `kind` uses selects a protocol whose auth layer has digest `kind`; and
/// `origin` selects no auth layer.
pub proof fn lemma_protocol_names(kind: crate::crypto::HashKind)
    ensures
        protocol_named(auth::protocol_name(kind).map_values(|b: u8| b as char)) matches Some(p)
            && protocol_auth(p) matches Some(t) && t.spec_hash_kind() == kind,
        protocol_named("origin"@) matches Some(p) && protocol_auth(p) is None,
{
    reveal_strlit("origin");
    reveal_strlit("auth_aes128_md5");
    reveal_strlit("auth_aes128_sha1");
    let md5 = "auth_aes128_md5"@;
    let sha1 = "auth_aes128_sha1"@;
    assert(md5.map_values(|c: char| c as u8).map_values(|b: u8| b as char) =~= md5);
    assert(sha1.map_values(|c: char| c as u8).map_values(|b: u8| b as char) =~= sha1);
    assert(md5 != "origin"@) by {
        assert(md5.len() != "origin"@.len());
    }
    assert(sha1 != "origin"@) by {
        assert(sha1.len() != "origin"@.len());
    }
    assert(sha1 != md5) by {
        assert(sha1.len() != md5.len());
    }
}

/// The method that a configuration name denotes.
pub open spec fn method_named(name: Seq<char>) -> Option<MethodType> {
    if name == "aes-256-cfb"@ { Some(MethodType::Aes256Cfb) } else { None }
}

/// The obfuscation that a configuration name denotes.
pub open spec fn obfs_named(name: Seq<char>) -> Option<ObfsType> {
    if name == "plain"@ {
        Some(ObfsType::Plain)
    } else if name == "http_simple"@ {
        Some(ObfsType::HttpSimple)
    } else {
        None
    }
}

fn protocol_from_name(name: &[char]) -> (r: Option<ProtocolType>)
    ensures
        r == protocol_named(name@),
{
    proof {
        reveal_strlit("origin");
        reveal_strlit("auth_aes128_md5");
        reveal_strlit("auth_aes128_sha1");
    }
    if chars_eq(name, literal("origin").as_slice()) {
        Some(ProtocolType::Origin)
    } else if chars_eq(name, literal("auth_aes128_md5").as_slice()) {
        Some(ProtocolType::AuthAes128Md5)
    } else if chars_eq(name, literal("auth_aes128_sha1").as_slice()) {
        Some(ProtocolType::AuthAes128Sha1)
    } else {
        None
    }
}

fn method_from_name(name: &[char]) -> (r: Option<MethodType>)
    ensures
        r == method_named(name@),
{
    proof {
        reveal_strlit("aes-256-cfb");
    }
    if chars_eq(name, literal("aes-256-cfb").as_slice()) { Some(MethodType::Aes256Cfb) } else { None }
}

fn obfs_from_name(name: &[char]) -> (r: Option<ObfsType>)
    ensures
        r == obfs_named(name@),
{
    proof {
        reveal_strlit("plain");
        reveal_strlit("http_simple");
    }
    if chars_eq(name, literal("plain").as_slice()) {
        Some(ObfsType::Plain)
    } else if chars_eq(name, literal("http_simple").as_slice()) {
        Some(ObfsType::HttpSimple)
    } else {
        None
    }
}

/// The configuration of an SSR client.
#[derive(Debug, Clone)]
pub struct ClientConfig {
    pub password: String,
    pub method: MethodType,
    pub protocol: ProtocolType,
    pub protocol_param: String,
    pub obfs: ObfsType,
    pub obfs_param: String,
}

/// The pairs of a query string, in order, with percent escapes and `+`
/// decoded as `application/x-www-form-urlencoded` prescribes.
pub uninterp spec fn form_urlencoded_pairs(input: Seq<u8>) -> Seq<(Seq<char>, Seq<char>)>;

/// The text of each key and value.
pub open spec fn pairs_view(ps: Seq<(String, String)>) -> Seq<(Seq<char>, Seq<char>)> {
    ps.map_values(|p: (String, String)| (p.0@, p.1@))
}

/// `url::form_urlencoded::parse`: the pairs of a query string.
#[verifier::external_body]
fn parse_form(input: &[u8]) -> (r: Vec<(String, String)>)
    ensures
        pairs_view(r@) == form_urlencoded_pairs(input@),
{
    url::form_urlencoded::parse(input).map(|(k, v)| (k.into_owned(), v.into_owned())).collect()
}

/// The extra parameters of an SSR URL: each value Base64-decoded, in
/// order; the first value that does not decode is the error.
pub open spec fn decode_values(ps: Seq<(Seq<char>, Seq<char>)>) -> Result<Seq<(Seq<char>, Seq<char>)>, DecodeError>
    decreases ps.len(),
{
    if ps.len() == 0 {
        Ok(Seq::empty())
    } else {
        match decode_values(ps.drop_last()) {
            Err(e) => Err(e),
            Ok(done) => match spec_urlsafe_base64_decode_string(encode_utf8(ps.last().1)) {
                Err(e) => Err(e),
                Ok(v) => Ok(done.push((ps.last().0, v))),
            },
        }
    }
}

/// The map that the pairs make, later pairs replacing earlier ones.
pub open spec fn pairs_to_map(ps: Seq<(Seq<char>, Seq<char>)>) -> Map<Seq<char>, Seq<char>>
    decreases ps.len(),
{
    if ps.len() == 0 {
        Map::empty()
    } else {
        pairs_to_map(ps.drop_last()).insert(ps.last().0, ps.last().1)
    }
}

/// Extra URL parameters: key/value pairs where a later pair replaces an
/// earlier one with the same key.
#[derive(Debug, Clone)]
pub struct Extras {
    pub pairs: Vec<(String, String)>,
}

impl View for Extras {
    type V = Map<Seq<char>, Seq<char>>;

    open spec fn view(&self) -> Map<Seq<char>, Seq<char>> {
        pairs_to_map(pairs_view(self.pairs@))
    }
}

/// The pairs whose key is not `k`, in order.
pub open spec fn without_key(ps: Seq<(Seq<char>, Seq<char>)>, k: Seq<char>) -> Seq<(Seq<char>, Seq<char>)>
    decreases ps.len(),
{
    if ps.len() == 0 {
        Seq::empty()
    } else if ps.last().0 == k {
        without_key(ps.drop_last(), k)
    } else {
        without_key(ps.drop_last(), k).push(ps.last())
    }
}

proof fn lemma_without_key(ps: Seq<(Seq<char>, Seq<char>)>, k: Seq<char>)
    ensures
        pairs_to_map(without_key(ps, k)) == pairs_to_map(ps).remove(k),
    decreases ps.len(),
{
    if ps.len() > 0 {
        let q = ps.drop_last();
        lemma_without_key(q, k);
        if ps.last().0 == k {
            assert(pairs_to_map(ps).remove(k) =~= pairs_to_map(q).remove(k));
        } else {
            let w = without_key(q, k).push(ps.last());
            assert(without_key(ps, k) == w);
            assert(w.drop_last() == without_key(q, k));
            assert(w.last() == ps.last());
            assert(pairs_to_map(w) == pairs_to_map(without_key(q, k)).insert(ps.last().0, ps.last().1));
            assert(pairs_to_map(ps).remove(k) =~= pairs_to_map(q).remove(k).insert(ps.last().0, ps.last().1));
        }
    } else {
        assert(pairs_to_map(ps).remove(k) =~= Map::empty());
    }
}

proof fn lemma_map_tail_free(ps: Seq<(Seq<char>, Seq<char>)>, i: int, k: Seq<char>)
    requires
        0 <= i <= ps.len(),
        forall|j: int| i <= j < ps.len() ==> (#[trigger] ps[j]).0 != k,
    ensures
        pairs_to_map(ps).dom().contains(k) == pairs_to_map(ps.take(i)).dom().contains(k),
        pairs_to_map(ps).dom().contains(k) ==> pairs_to_map(ps)[k] == pairs_to_map(ps.take(i))[k],
    decreases ps.len() - i,
{
    if i < ps.len() {
        let q = ps.drop_last();
        assert forall|j: int| i <= j < q.len() implies (#[trigger] q[j]).0 != k by {
            assert(q[j] == ps[j]);
        }
        lemma_map_tail_free(q, i, k);
        assert(q.take(i) == ps.take(i));
        assert(ps[ps.len() - 1].0 != k);
    } else {
        assert(ps.take(i) == ps);
    }
}

impl Extras {
    pub fn new() -> (r: Self)
        ensures
            r@ == Map::<Seq<char>, Seq<char>>::empty(),
    {
        Extras { pairs: Vec::new() }
    }

    /// Sets `key` to `value`.
    pub fn insert(&mut self, key: String, value: String)
        ensures
            final(self)@ == old(self)@.insert(key@, value@),
    {
        let ghost k = key@;
        let ghost v = value@;
        self.pairs.push((key, value));
        let ghost np = pairs_view(self.pairs@);
        assert(np == pairs_view(old(self).pairs@).push((k, v)));
        assert(np.drop_last() == pairs_view(old(self).pairs@));
        assert(np.last() == (k, v));
    }

    /// The value of `key`, if it has one.
    pub fn get(&self, key: &String) -> (r: Option<String>)
        ensures
            match r {
                Some(v) => self@.dom().contains(key@) && v@ == self@[key@],
                None => !self@.dom().contains(key@),
            },
    {
        let ghost ps = pairs_view(self.pairs@);
        let mut i: usize = self.pairs.len();
        while i > 0
            invariant
                i <= self.pairs@.len(),
                ps == pairs_view(self.pairs@),
                forall|j: int| i <= j < ps.len() ==> (#[trigger] ps[j]).0 != key@,
            decreases i,
        {
            if self.pairs[i - 1].0 == *key {
                proof {
                    lemma_map_tail_free(ps, i as int, key@);
                    assert(ps.take(i as int).last() == ps[i - 1]);
                }
                let v = self.pairs[i - 1].1.clone();
                return Some(v);
            }
            i = i - 1;
        }
        proof {
            lemma_map_tail_free(ps, 0, key@);
            assert(ps.take(0) == Seq::<(Seq<char>, Seq<char>)>::empty());
        }
        None
    }

    /// Removes `key` and returns its value, if it had one.
    pub fn remove(&mut self, key: &String) -> (r: Option<String>)
        ensures
            final(self)@ == old(self)@.remove(key@),
            match r {
                Some(v) => old(self)@.dom().contains(key@) && v@ == old(self)@[key@],
                None => !old(self)@.dom().contains(key@),
            },
    {
        let r = self.get(key);
        let mut kept: Vec<(String, String)> = Vec::new();
        let mut i: usize = 0;
        let ghost ps = pairs_view(self.pairs@);
        while i < self.pairs.len()
            invariant
                i <= self.pairs@.len(),
                ps == pairs_view(self.pairs@),
                pairs_view(kept@) == without_key(ps.take(i as int), key@),
            decreases self.pairs.len() - i,
        {
            assert(ps.take(i + 1).drop_last() == ps.take(i as int));
            if self.pairs[i].0 != *key {
                let k = self.pairs[i].0.clone();
                let v = self.pairs[i].1.clone();
                kept.push((k, v));
                assert(pairs_view(kept@) == pairs_view(kept@.drop_last()).push(ps[i as int]));
            }
            i = i + 1;
        }
        assert(ps.take(i as int) == ps);
        proof {
            lemma_without_key(ps, key@);
        }
        self.pairs = kept;
        r
    }
}

/// A server taken from an `ssr://` URL: where it is, how to talk to it,
/// and the URL's other parameters.
#[derive(Debug, Clone)]
pub struct SsrUrlItem {
    pub dest: DestAddr,
    pub config: ClientConfig,
    pub extras: Extras,
}

/// Why an `ssr://` URL was refused.
#[derive(Debug, Clone, Copy, PartialEq, Eq, Structural)]
pub enum SsrUrlError {
    /// It does not start with `ssr://`.
    NotSsrUrl,
    /// A part that should be Base64 text is not.
    Decode(DecodeError),
    /// A field of the server description is missing.
    InvalidUrl,
    /// The port is not a decimal number below 65536.
    InvalidPort,
    /// The protocol is none of the known ones.
    UnknownProtocol,
    /// The method is none of the known ones.
    UnknownMethod,
    /// The obfuscation is none of the known ones.
    UnknownObfs,
}

/// The abstract content of a parsed `ssr://` URL.
pub struct SsrUrlView {
    pub dest: DestView,
    pub password: Seq<char>,
    pub method: MethodType,
    pub protocol: ProtocolType,
    pub protocol_param: Seq<char>,
    pub obfs: ObfsType,
    pub obfs_param: Seq<char>,
    pub extras: Map<Seq<char>, Seq<char>>,
}

impl SsrUrlItem {
    pub open spec fn view_item(&self) -> SsrUrlView {
        SsrUrlView {
            dest: self.dest@,
            password: self.config.password@,
            method: self.config.method,
            protocol: self.config.protocol,
            protocol_param: self.config.protocol_param@,
            obfs: self.config.obfs,
            obfs_param: self.config.obfs_param@,
            extras: self.extras@,
        }
    }
}

/// The destination that a host and port name: an IP address where the host
/// text spells one, else a domain name.
pub open spec fn dest_from_host(host: Seq<char>, port: u16) -> DestView {
    match ip_parse(host) {
        Some(ip) => DestView { domain: None, ip: Some(ip), port: Some(port) },
        None => DestView { domain: Some(host), ip: None, port: Some(port) },
    }
}

/// The value of `key` in `m`, or the empty text.
pub open spec fn value_or_empty(m: Map<Seq<char>, Seq<char>>, key: Seq<char>) -> Seq<char> {
    if m.dom().contains(key) { m[key] } else { Seq::empty() }
}

/// The server description `host:port:protocol:method:obfs:password`, after
/// the extra parameters have been read.
pub open spec fn spec_parse_main(main: Seq<char>, extras: Map<Seq<char>, Seq<char>>) -> Result<SsrUrlView, SsrUrlError> {
    let parts = split_on(main, ':');
    if parts.len() < 2 {
        Err(SsrUrlError::InvalidUrl)
    } else {
        match parse_bounded(parts[1], 10, 65535) {
            None => Err(SsrUrlError::InvalidPort),
            Some(port) => if parts.len() < 3 {
                Err(SsrUrlError::InvalidUrl)
            } else {
                match protocol_named(parts[2]) {
                    None => Err(SsrUrlError::UnknownProtocol),
                    Some(protocol) => if parts.len() < 4 {
                        Err(SsrUrlError::InvalidUrl)
                    } else {
                        match method_named(parts[3]) {
                            None => Err(SsrUrlError::UnknownMethod),
                            Some(method) => if parts.len() < 5 {
                                Err(SsrUrlError::InvalidUrl)
                            } else {
                                match obfs_named(parts[4]) {
                                    None => Err(SsrUrlError::UnknownObfs),
                                    Some(obfs) => if parts.len() < 6 {
                                        Err(SsrUrlError::InvalidUrl)
                                    } else {
                                        match spec_urlsafe_base64_decode_string(encode_utf8(parts[5])) {
                                            Err(e) => Err(SsrUrlError::Decode(e)),
                                            Ok(password) => Ok(SsrUrlView {
                                                dest: dest_from_host(parts[0], port as u16),
                                                password,
                                                method,
                                                protocol,
                                                protocol_param: value_or_empty(extras, "protoparam"@),
                                                obfs,
                                                obfs_param: value_or_empty(extras, "obfsparam"@),
                                                extras: extras.remove("protoparam"@).remove("obfsparam"@),
                                            }),
                                        }
                                    },
                                }
                            },
                        }
                    },
                }
            },
        }
    }
}

/// What `parse_url` makes of `url`.
pub open spec fn spec_parse_url(url: Seq<char>) -> Result<SsrUrlView, SsrUrlError> {
    if !(url.len() >= 6 && url.take(6) == "ssr://"@) {
        Err(SsrUrlError::NotSsrUrl)
    } else {
        match spec_urlsafe_base64_decode_string(encode_utf8(url.skip(6))) {
            Err(e) => Err(SsrUrlError::Decode(e)),
            Ok(decoded) => {
                let cut = find_from(decoded, "/?"@, 0);
                let main = match cut { Some(i) => decoded.take(i), None => decoded };
                let pairs = match cut {
                    Some(i) => decode_values(form_urlencoded_pairs(encode_utf8(decoded.skip(i + 2)))),
                    None => Ok(Seq::empty()),
                };
                match pairs {
                    Err(e) => Err(SsrUrlError::Decode(e)),
                    Ok(ps) => spec_parse_main(main, pairs_to_map(ps)),
                }
            },
        }
    }
}

fn text_bytes(cs: &[char]) -> (r: Vec<u8>)
    ensures
        r@ == encode_utf8(cs@),
{
    let s = string_from_chars(cs);
    let b = s.as_str().as_bytes();
    crate::bytes::copy_range(b, 0, b.len())
}

/// Reads the extra parameters of the query string `qs`, decoding each value.
fn parse_extras(qs: &[char]) -> (r: Result<Extras, DecodeError>)
    ensures
        match decode_values(form_urlencoded_pairs(encode_utf8(qs@))) {
            Ok(ps) => r matches Ok(e) && e@ == pairs_to_map(ps),
            Err(e) => r == Err::<Extras, DecodeError>(e),
        },
{
    let bytes = text_bytes(qs);
    let pairs = parse_form(bytes.as_slice());
    let ghost ps = pairs_view(pairs@);
    let mut extras = Extras::new();
    let mut i: usize = 0;
    while i < pairs.len()
        invariant
            i <= pairs@.len(),
            ps == pairs_view(pairs@),
            ps == form_urlencoded_pairs(encode_utf8(qs@)),
            decode_values(ps.take(i as int)) matches Ok(done) && extras@ == pairs_to_map(done),
        decreases pairs.len() - i,
    {
        assert(ps.take(i + 1).drop_last() == ps.take(i as int));
        assert(ps.take(i + 1).last() == ps[i as int]);
        let value = pairs[i].1.as_str().as_bytes();
        match urlsafe_base64_decode_string(value) {
            Err(e) => {
                proof {
                    lemma_decode_values_err(ps, i as int + 1);
                }
                return Err(e);
            },
            Ok(v) => {
                let k = pairs[i].0.clone();
                let ghost done = decode_values(ps.take(i as int)).unwrap();
                extras.insert(k, v);
                assert(decode_values(ps.take(i + 1)).unwrap() == done.push((ps[i as int].0, v@)));
                assert(done.push((ps[i as int].0, v@)).drop_last() == done);
            },
        }
        i = i + 1;
    }
    assert(ps.take(i as int) == ps);
    Ok(extras)
}

proof fn lemma_decode_values_err(ps: Seq<(Seq<char>, Seq<char>)>, i: int)
    requires
        0 < i <= ps.len(),
        decode_values(ps.take(i)) is Err,
    ensures
        decode_values(ps) == decode_values(ps.take(i)),
    decreases ps.len(),
{
    if i < ps.len() {
        assert(ps.drop_last().take(i) == ps.take(i));
        lemma_decode_values_err(ps.drop_last(), i);
    } else {
        assert(ps.take(i) == ps);
    }
}

/// Reads an `ssr://` URL: `ssr://` followed by the URL-safe Base64 of
/// `host:port:protocol:method:obfs:base64(password)`, optionally followed
/// by `/?` and parameters whose values are URL-safe Base64 too. The
/// parameters `protoparam` and `obfsparam` go into the configuration; the
/// others are kept.
pub fn parse_url(url: &str) -> (r: Result<SsrUrlItem, SsrUrlError>)
    ensures
        match spec_parse_url(url@) {
            Ok(v) => r matches Ok(item) && item.view_item() == v,
            Err(e) => r matches Err(f) && f == e,
        },
{
    let chars = chars_of(url);
    let prefix = literal("ssr://");
    proof {
        reveal_strlit("ssr://");
    }
    if !crate::text::matches_at(chars.as_slice(), prefix.as_slice(), 0) {
        return Err(SsrUrlError::NotSsrUrl);
    }
    assert(chars@.subrange(0, 6) == chars@.take(6));
    let payload = slice_to_vec(chars.as_slice(), 6, chars.len());
    assert(payload@ == url@.skip(6));
    let payload_bytes = text_bytes(payload.as_slice());
    let decoded = match urlsafe_base64_decode_string(payload_bytes.as_slice()) {
        Ok(d) => d,
        Err(e) => return Err(SsrUrlError::Decode(e)),
    };
    let dchars = chars_of(decoded.as_str());
    let sep = literal("/?");
    proof {
        reveal_strlit("/?");
    }
    assert(sep@.len() == 2);
    let (main, extras) = match find(dchars.as_slice(), sep.as_slice(), 0) {
        Some(i) => {
            proof {
                lemma_find_from(dchars@, sep@, 0);
            }
            assert(crate::text::occurs_at(dchars@, sep@, i as int));
            assert(sep@.len() == 2);
            let dlen = dchars.len();
            assert(i + 2 <= dlen);
            let main = slice_to_vec(dchars.as_slice(), 0, i);
            let qs = slice_to_vec(dchars.as_slice(), i + 2, dlen);
            assert(qs@ == dchars@.skip(i + 2));
            match parse_extras(qs.as_slice()) {
                Ok(e) => (main, e),
                Err(e) => return Err(SsrUrlError::Decode(e)),
            }
        },
        None => {
            assert(dchars@.subrange(0, dchars@.len() as int) == dchars@);
            (slice_to_vec(dchars.as_slice(), 0, dchars.len()), Extras::new())
        },
    };
    parse_main(main.as_slice(), extras)
}

fn parse_main(main: &[char], extras: Extras) -> (r: Result<SsrUrlItem, SsrUrlError>)
    ensures
        match spec_parse_main(main@, extras@) {
            Ok(v) => r matches Ok(item) && item.view_item() == v,
            Err(e) => r matches Err(f) && f == e,
        },
{
    let mut extras = extras;
    let ghost m = extras@;
    proof {
        reveal_strlit("protoparam");
        reveal_strlit("obfsparam");
    }
    let protocol_param = match extras.remove(&"protoparam".to_owned()) {
        Some(v) => v,
        None => String::new(),
    };
    let obfs_param = match extras.remove(&"obfsparam".to_owned()) {
        Some(v) => v,
        None => String::new(),
    };
    assert(protocol_param@ == value_or_empty(m, "protoparam"@));
    let parts = split(main, ':');
    if parts.len() < 2 {
        return Err(SsrUrlError::InvalidUrl);
    }
    let port = match parse_uint(parts[1].as_slice(), 10, 65535) {
        Some(p) => p as u16,
        None => return Err(SsrUrlError::InvalidPort),
    };
    if parts.len() < 3 {
        return Err(SsrUrlError::InvalidUrl);
    }
    let protocol = match protocol_from_name(parts[2].as_slice()) {
        Some(p) => p,
        None => return Err(SsrUrlError::UnknownProtocol),
    };
    if parts.len() < 4 {
        return Err(SsrUrlError::InvalidUrl);
    }
    let method = match method_from_name(parts[3].as_slice()) {
        Some(m) => m,
        None => return Err(SsrUrlError::UnknownMethod),
    };
    if parts.len() < 5 {
        return Err(SsrUrlError::InvalidUrl);
    }
    let obfs = match obfs_from_name(parts[4].as_slice()) {
        Some(o) => o,
        None => return Err(SsrUrlError::UnknownObfs),
    };
    if parts.len() < 6 {
        return Err(SsrUrlError::InvalidUrl);
    }
    let pw_bytes = text_bytes(parts[5].as_slice());
    let password = match urlsafe_base64_decode_string(pw_bytes.as_slice()) {
        Ok(p) => p,
        Err(e) => return Err(SsrUrlError::Decode(e)),
    };
    let host = string_from_chars(parts[0].as_slice());
    let mut dest = DestAddr::new();
    dest.set_host_from_str(host.as_str());
    dest.set_port(port);
    let config = ClientConfig { password, method, protocol, protocol_param, obfs, obfs_param };
    let item = SsrUrlItem { dest, config, extras };
    assert(item.view_item().dest == dest_from_host(parts@[0]@, port));
    assert("protoparam"@.len() == 10 && "obfsparam"@.len() == 9);
    assert("protoparam"@ != "obfsparam"@);
    assert(obfs_param@ == value_or_empty(m, "obfsparam"@));
    assert(item.view_item().extras == m.remove("protoparam"@).remove("obfsparam"@));
    assert(password@ == spec_urlsafe_base64_decode_string(encode_utf8(parts@[5]@)).unwrap());
    assert(item.view_item() == spec_parse_main(main@, m).unwrap());
    Ok(item)
}

/// Reads each line as an `ssr://` URL; the first line that fails is the
/// error.
pub open spec fn spec_parse_all(lines: Seq<Seq<char>>) -> Result<Seq<SsrUrlView>, SsrUrlError>
    decreases lines.len(),
{
    if lines.len() == 0 {
        Ok(Seq::empty())
    } else {
        match spec_parse_all(lines.drop_last()) {
            Err(e) => Err(e),
            Ok(done) => match spec_parse_url(lines.last()) {
                Err(e) => Err(e),
                Ok(v) => Ok(done.push(v)),
            },
        }
    }
}

/// What `parse_subscription` makes of `content`.
pub open spec fn spec_parse_subscription(content: Seq<u8>) -> Result<Seq<SsrUrlView>, SsrUrlError> {
    match base64_standard_decoding(content) {
        None => Err(SsrUrlError::Decode(DecodeError::Base64)),
        Some(bytes) => if !valid_utf8(bytes) {
            Err(SsrUrlError::Decode(DecodeError::Utf8))
        } else {
            spec_parse_all(spec_lines(decode_utf8(bytes)))
        },
    }
}

proof fn lemma_parse_all_err(ls: Seq<Seq<char>>, i: int)
    requires
        0 < i <= ls.len(),
        spec_parse_all(ls.take(i)) is Err,
    ensures
        spec_parse_all(ls) == spec_parse_all(ls.take(i)),
    decreases ls.len(),
{
    if i < ls.len() {
        assert(ls.drop_last().take(i) == ls.take(i));
        lemma_parse_all_err(ls.drop_last(), i);
    } else {
        assert(ls.take(i) == ls);
    }
}

/// Reads a subscription: standard Base64 of UTF-8 text holding one `ssr://`
/// URL per line.
pub fn parse_subscription(content: &[u8]) -> (r: Result<Vec<SsrUrlItem>, SsrUrlError>)
    ensures
        match spec_parse_subscription(content@) {
            Ok(vs) => r matches Ok(items) && items@.len() == vs.len()
                && forall|i: int| 0 <= i < vs.len() ==> (#[trigger] items@[i]).view_item() == vs[i],
            Err(e) => r matches Err(f) && f == e,
        },
{
    let decoded = match base64_decode_standard(content) {
        Some(d) => d,
        None => return Err(SsrUrlError::Decode(DecodeError::Base64)),
    };
    let ghost bytes = decoded@;
    let text = match crate::utils::utf8_text(decoded) {
        Some(t) => t,
        None => return Err(SsrUrlError::Decode(DecodeError::Utf8)),
    };
    let lines = crate::text::lines(chars_of(text.as_str()).as_slice());
    let ghost ls = spec_lines(decode_utf8(bytes));
    assert(base64_standard_decoding(content@) == Some(bytes));
    assert(valid_utf8(bytes));
    assert(spec_parse_subscription(content@) == spec_parse_all(ls));
    assert(ls.take(0) == Seq::<Seq<char>>::empty());
    let mut items: Vec<SsrUrlItem> = Vec::new();
    let mut i: usize = 0;
    while i < lines.len()
        invariant
            i <= lines@.len(),
            lines@.len() == ls.len(),
            spec_parse_subscription(content@) == spec_parse_all(ls),
            forall|j: int| 0 <= j < ls.len() ==> (#[trigger] lines@[j])@ == ls[j],
            spec_parse_all(ls.take(i as int)) matches Ok(vs) && items@.len() == vs.len()
                && forall|j: int| 0 <= j < vs.len() ==> (#[trigger] items@[j]).view_item() == vs[j],
        decreases lines.len() - i,
    {
        assert(ls.take(i + 1).drop_last() == ls.take(i as int));
        assert(ls.take(i + 1).last() == ls[i as int]);
        let line = string_from_chars(lines[i].as_slice());
        match parse_url(line.as_str()) {
            Err(e) => {
                assert(spec_parse_url(ls[i as int]) == Err::<SsrUrlView, SsrUrlError>(e));
                assert(spec_parse_all(ls.take(i + 1)) == Err::<Seq<SsrUrlView>, SsrUrlError>(e));
                proof {
                    lemma_parse_all_err(ls, i as int + 1);
                }
                return Err(e);
            },
            Ok(item) => {
                items.push(item);
            },
        }
        i = i + 1;
    }
    assert(ls.take(i as int) == ls);
    Ok(items)
}

/// An SSR client: the layers a connection passes through, outermost first
/// (obfuscation, cipher, auth, address header), and the server to reach.
#[derive(Debug)]
pub struct SsrClientProcessor {
    /// The obfuscation and its parameter, and the server port it claims.
    pub obfs: Option<(ObfsType, String, Option<u16>)>,
    /// The stream cipher.
    pub cipher: stream_cipher::ClientProcessor,
    /// The auth protocol and its parameter.
    pub auth: Option<(auth::SsrClientAuthType, String)>,
    pub handshake: handshake::ShadowsocksClientHandshakeProcessor,
    pub dest: Option<DestAddr>,
}

impl SsrClientProcessor {
    /// Picks the layers that the configuration asks for.
    pub fn new(config: ClientConfig, dest: Option<DestAddr>) -> (r: Self)
        ensures
            match config.protocol {
                ProtocolType::Origin => r.auth is None,
                ProtocolType::AuthAes128Md5 => r.auth matches Some((t, p))
                    && t == auth::SsrClientAuthType::AuthAes128Md5 && p@ == config.protocol_param@,
                ProtocolType::AuthAes128Sha1 => r.auth matches Some((t, p))
                    && t == auth::SsrClientAuthType::AuthAes128Sha1 && p@ == config.protocol_param@,
            },
            match protocol_auth(config.protocol) {
                None => r.auth is None,
                Some(t) => r.auth matches Some((t2, p)) && t2 == t && p@ == config.protocol_param@,
            },
            r.cipher.method == stream_cipher::SsStreamCipherKind::Aes256Cfb,
            r.cipher.master_key@ == crate::crypto::spec_evp_bytes_to_key(encode_utf8(config.password@), 32),
            match config.obfs {
                ObfsType::Plain => r.obfs is None,
                ObfsType::HttpSimple => r.obfs matches Some((o, p, port))
                    && o == ObfsType::HttpSimple && p@ == config.obfs_param@
                    && port == (match dest { Some(d) => d.port, None => None }),
            },
            r.dest == dest,
    {
        let auth = match config.protocol {
            ProtocolType::Origin => None,
            ProtocolType::AuthAes128Md5 => Some((auth::SsrClientAuthType::AuthAes128Md5, config.protocol_param.clone())),
            ProtocolType::AuthAes128Sha1 => Some((auth::SsrClientAuthType::AuthAes128Sha1, config.protocol_param.clone())),
        };
        let cipher = match config.method {
            MethodType::Aes256Cfb => stream_cipher::ClientProcessor::new(
                stream_cipher::SsStreamCipherKind::Aes256Cfb,
                config.password.as_str(),
            ),
        };
        let port = match &dest {
            Some(d) => d.port,
            None => None,
        };
        let obfs = match config.obfs {
            ObfsType::Plain => None,
            ObfsType::HttpSimple => Some((config.obfs, config.obfs_param.clone(), port)),
        };
        SsrClientProcessor {
            obfs,
            cipher,
            auth,
            handshake: handshake::ShadowsocksClientHandshakeProcessor::new(),
            dest,
        }
    }
}

impl SsrClientProcessor {
    /// Points the connection at the configured server, where there is one.
    pub fn prepare(&self, conn: &mut crate::router::matching::Connection)
        ensures
            final(conn).src_ip == old(conn).src_ip,
            final(conn).typ == old(conn).typ,
            final(conn).inbound_tag@ == old(conn).inbound_tag@,
            final(conn).dest_addr@ == match self.dest {
                Some(d) => d@,
                None => old(conn).dest_addr@,
            },
    {
        if let Some(d) = &self.dest {
            conn.dest_addr = d.copy();
        }
    }
}

} // verus!
