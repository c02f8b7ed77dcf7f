//! The SSR `http_simple` obfuscation: the first write is disguised as an
//! HTTP GET request whose path carries the first bytes percent-encoded, and
//! the server's reply is read past its HTTP header.
use vstd::prelude::*;
use crate::plumber::{Plumber, ProcessorKind};
use vstd::utf8::encode_utf8;
use crate::crypto::random_below;
use crate::bytes::{copy_range, push_slice};
use crate::net::{DestAddr, DestView, ip_text, push_ip};
use crate::text::{decimal, push_chars, push_char, push_decimal, chars_of, split_on, lemma_decimal_parse, lemma_split_on_free, lemma_split_on_two};
use crate::processor::http::server::host_port;

verus! {

/// Registers the processor as `ssr_obfs_client`.
pub fn register(plumber: &mut Plumber)
    ensures
        final(plumber)@ == old(plumber)@.push(("ssr_obfs_client"@, ProcessorKind::SsrObfsClient)),
{
    plumber.register("ssr_obfs_client", ProcessorKind::SsrObfsClient);
}

/// The browsers that a request claims to come from, when no headers are
/// configured.
pub open spec fn user_agent(i: int) -> Seq<char> {
    if i == 0 { "Mozilla/5.0 (Windows NT 6.3; WOW64; rv:40.0) Gecko/20100101 Firefox/40.0"@ }
    else if i == 1 { "Mozilla/5.0 (Windows NT 6.3; WOW64; rv:40.0) Gecko/20100101 Firefox/44.0"@ }
    else if i == 2 { "Mozilla/5.0 (Windows NT 6.1) AppleWebKit/537.36 (KHTML, like Gecko) Chrome/41.0.2228.0 Safari/537.36"@ }
    else if i == 3 { "Mozilla/5.0 (X11; Linux x86_64) AppleWebKit/535.11 (KHTML, like Gecko) Ubuntu/11.10 Chromium/27.0.1453.93 Chrome/27.0.1453.93 Safari/537.36"@ }
    else if i == 4 { "Mozilla/5.0 (X11; Ubuntu; Linux x86_64; rv:35.0) Gecko/20100101 Firefox/35.0"@ }
    else if i == 5 { "Mozilla/5.0 (compatible; WOW64; MSIE 10.0; Windows NT 6.2)"@ }
    else if i == 6 { "Mozilla/5.0 (Windows; U; Windows NT 6.1; en-US) AppleWebKit/533.20.25 (KHTML, like Gecko) Version/5.0.4 Safari/533.20.27"@ }
    else if i == 7 { "Mozilla/4.0 (compatible; MSIE 7.0; Windows NT 6.3; Trident/7.0; .NET4.0E; .NET4.0C)"@ }
    else if i == 8 { "Mozilla/5.0 (Windows NT 6.3; Trident/7.0; rv:11.0) like Gecko"@ }
    else if i == 9 { "Mozilla/5.0 (Linux; Android 4.4; Nexus 5 Build/BuildID) AppleWebKit/537.36 (KHTML, like Gecko) Version/4.0 Chrome/30.0.0.0 Mobile Safari/537.36"@ }
    else if i == 10 { "Mozilla/5.0 (iPad; CPU OS 5_0 like Mac OS X) AppleWebKit/534.46 (KHTML, like Gecko) Version/5.1 Mobile/9A334 Safari/7534.48.3"@ }
    else { "Mozilla/5.0 (iPhone; CPU iPhone OS 5_0 like Mac OS X) AppleWebKit/534.46 (KHTML, like Gecko) Version/5.1 Mobile/9A334 Safari/7534.48.3"@ }
}

fn user_agent_text(i: u32) -> (r: &'static str)
    requires
        i < 12,
    ensures
        r@ == user_agent(i as int),
{
    if i == 0 { "Mozilla/5.0 (Windows NT 6.3; WOW64; rv:40.0) Gecko/20100101 Firefox/40.0" }
    else if i == 1 { "Mozilla/5.0 (Windows NT 6.3; WOW64; rv:40.0) Gecko/20100101 Firefox/44.0" }
    else if i == 2 { "Mozilla/5.0 (Windows NT 6.1) AppleWebKit/537.36 (KHTML, like Gecko) Chrome/41.0.2228.0 Safari/537.36" }
    else if i == 3 { "Mozilla/5.0 (X11; Linux x86_64) AppleWebKit/535.11 (KHTML, like Gecko) Ubuntu/11.10 Chromium/27.0.1453.93 Chrome/27.0.1453.93 Safari/537.36" }
    else if i == 4 { "Mozilla/5.0 (X11; Ubuntu; Linux x86_64; rv:35.0) Gecko/20100101 Firefox/35.0" }
    else if i == 5 { "Mozilla/5.0 (compatible; WOW64; MSIE 10.0; Windows NT 6.2)" }
    else if i == 6 { "Mozilla/5.0 (Windows; U; Windows NT 6.1; en-US) AppleWebKit/533.20.25 (KHTML, like Gecko) Version/5.0.4 Safari/533.20.27" }
    else if i == 7 { "Mozilla/4.0 (compatible; MSIE 7.0; Windows NT 6.3; Trident/7.0; .NET4.0E; .NET4.0C)" }
    else if i == 8 { "Mozilla/5.0 (Windows NT 6.3; Trident/7.0; rv:11.0) like Gecko" }
    else if i == 9 { "Mozilla/5.0 (Linux; Android 4.4; Nexus 5 Build/BuildID) AppleWebKit/537.36 (KHTML, like Gecko) Version/4.0 Chrome/30.0.0.0 Mobile Safari/537.36" }
    else if i == 10 { "Mozilla/5.0 (iPad; CPU OS 5_0 like Mac OS X) AppleWebKit/534.46 (KHTML, like Gecko) Version/5.1 Mobile/9A334 Safari/7534.48.3" }
    else { "Mozilla/5.0 (iPhone; CPU iPhone OS 5_0 like Mac OS X) AppleWebKit/534.46 (KHTML, like Gecko) Version/5.1 Mobile/9A334 Safari/7534.48.3" }
}

/// The browser-like header lines sent when no headers are configured, after
/// the user agent.
pub open spec fn accept_lines() -> Seq<char> {
    "\r\nAccept: text/html,application/xhtml+xml,application/xml;q=0.9,*/*;q=0.8\r\nAccept-Language: en-US,en;q=0.8\r\nAccept-Encoding: gzip, deflate\r\nDNT: 1\r\nConnection: keep-alive\r\n"@
}

/// The configuration of the `http_simple` obfuscation.
#[derive(Debug, Clone)]
pub struct HttpSimpleConfig {
    /// The hosts to claim; one is picked at random. When empty, the
    /// destination is claimed.
    pub hosts: Vec<String>,
    /// Extra header lines, in the order they are sent. When empty, a
    /// browser-like set is sent.
    pub headers: Vec<(String, String)>,
    /// The port to claim in the `Host` header.
    pub port: u16,
}

/// The configured header lines, each as `name: value` and CRLF.
pub open spec fn header_lines(hs: Seq<(Seq<char>, Seq<char>)>) -> Seq<char>
    decreases hs.len(),
{
    if hs.len() == 0 {
        Seq::empty()
    } else {
        header_lines(hs.drop_last()) + hs.last().0 + ": "@ + hs.last().1 + "\r\n"@
    }
}

pub open spec fn headers_view(hs: Seq<(String, String)>) -> Seq<(Seq<char>, Seq<char>)> {
    hs.map_values(|h: (String, String)| (h.0@, h.1@))
}

/// The header block after the request line: `Host`, the header lines, and
/// the empty line that ends the header. `ua` is the user agent used when no
/// header lines are configured.
pub open spec fn spec_header_block(host: Seq<char>, port: u16, headers: Seq<(Seq<char>, Seq<char>)>, ua: Seq<char>) -> Seq<char> {
    let host_line = "Host: "@ + host + (if port != 80 { seq![':'] + decimal(port as nat) } else { Seq::empty() }) + "\r\n"@;
    let rest = if headers.len() == 0 { "User-Agent: "@ + ua + accept_lines() } else { header_lines(headers) };
    host_line + rest + "\r\n"@
}

/// The host that a request claims where no hosts are configured: the
/// destination's domain, else its address.
pub open spec fn dest_host_text(d: DestView) -> Seq<char> {
    match d.domain {
        Some(n) => n,
        None => ip_text(d.ip.unwrap()),
    }
}

/// The host picked for the `Host` header.
pub open spec fn host_allowed(config: &HttpSimpleConfig, dest: DestView, host: Seq<char>) -> bool {
    if config.hosts@.len() == 0 {
        host == dest_host_text(dest)
    } else {
        exists|i: int| 0 <= i < config.hosts@.len() && host == (#[trigger] config.hosts@[i])@
    }
}

fn push_host(text: &mut String, config: &HttpSimpleConfig, dest: &DestAddr) -> (host: Ghost<Seq<char>>)
    requires
        config.hosts@.len() > 0 || dest@.domain is Some || dest@.ip is Some,
        config.hosts@.len() <= u32::MAX,
    ensures
        host_allowed(config, dest@, host@),
        final(text)@ == old(text)@ + host@,
{
    if config.hosts.len() == 0 {
        match &dest.domain {
            Some(d) => {
                text.append(d.as_str());
            },
            None => {
                match &dest.ip {
                    Some(ip) => push_ip(text, ip),
                    None => {},
                }
            },
        }
        Ghost(dest_host_text(dest@))
    } else {
        let i = random_below(config.hosts.len() as u32) as usize;
        text.append(config.hosts[i].as_str());
        Ghost(config.hosts@[i as int]@)
    }
}

fn push_header_lines(text: &mut String, headers: &Vec<(String, String)>)
    ensures
        final(text)@ == old(text)@ + header_lines(headers_view(headers@)),
{
    proof {
        reveal_strlit("\r\n");
        reveal_strlit(": ");
    }
    let ghost hv = headers_view(headers@);
    let mut k: usize = 0;
    while k < headers.len()
        invariant
            k <= headers@.len(),
            hv == headers_view(headers@),
            text@ == old(text)@ + header_lines(hv.take(k as int)),
        decreases headers.len() - k,
    {
        assert(hv.take(k + 1).drop_last() == hv.take(k as int));
        text.append(headers[k].0.as_str());
        text.append(": ");
        text.append(headers[k].1.as_str());
        text.append("\r\n");
        k = k + 1;
    }
    assert(hv.take(k as int) == hv);
}

fn push_default_headers(text: &mut String) -> (ua: Ghost<int>)
    ensures
        0 <= ua@ < 12,
        final(text)@ == old(text)@ + "User-Agent: "@ + user_agent(ua@) + accept_lines(),
{
    let u = random_below(12);
    text.append("User-Agent: ");
    text.append(user_agent_text(u));
    text.append("\r\nAccept: text/html,application/xhtml+xml,application/xml;q=0.9,*/*;q=0.8\r\nAccept-Language: en-US,en;q=0.8\r\nAccept-Encoding: gzip, deflate\r\nDNT: 1\r\nConnection: keep-alive\r\n");
    Ghost(u as int)
}

/// Builds the header block for a connection to `dest`, picking a host and
/// a user agent at random where they are needed.
pub fn build_header_block(config: &HttpSimpleConfig, dest: &DestAddr) -> (r: Vec<u8>)
    requires
        config.hosts@.len() > 0 || dest@.domain is Some || dest@.ip is Some,
        config.hosts@.len() <= u32::MAX,
    ensures
        exists|host: Seq<char>, ua_index: int|
            host_allowed(config, dest@, host)
            && 0 <= ua_index < 12
            && r@ == encode_utf8(#[trigger] spec_header_block(host, config.port, headers_view(config.headers@), user_agent(ua_index))),
{
    let mut text = String::new();
    text.append("Host: ");
    let host = push_host(&mut text, config, dest);
    if config.port != 80 {
        push_char(&mut text, ':');
        push_decimal(&mut text, config.port as u32);
    }
    text.append("\r\n");
    let ghost mut ua_index: int = 0;
    if config.headers.len() == 0 {
        let ua = push_default_headers(&mut text);
        proof {
            ua_index = ua@;
        }
    } else {
        push_header_lines(&mut text, &config.headers);
    }
    text.append("\r\n");
    assert(text@ == spec_header_block(host@, config.port, headers_view(config.headers@), user_agent(ua_index)));
    let b = text.as_str().as_bytes();
    crate::bytes::copy_range(b, 0, b.len())
}

/// The request methods a disguised first write may use.
#[derive(Debug, Clone, Copy, PartialEq, Eq, Structural)]
pub enum ObfsHttpMethod {
    Get,
    Post,
}

/// A lowercase hex digit.
pub open spec fn hex_digit(d: nat) -> u8 {
    if d < 10 { (48 + d) as u8 } else { (87 + d) as u8 }
}

/// `%` and the two lowercase hex digits of `b`.
pub open spec fn percent_encoded(b: u8) -> Seq<u8> {
    seq![37u8, hex_digit((b / 16) as nat), hex_digit((b % 16) as nat)]
}

/// Each byte percent-encoded, one after another.
pub open spec fn percent_encode_all(s: Seq<u8>) -> Seq<u8>
    decreases s.len(),
{
    if s.len() == 0 {
        Seq::empty()
    } else {
        percent_encode_all(s.drop_last()) + percent_encoded(s.last())
    }
}

/// The disguised first write: the request line, whose path is the first
/// `data` bytes percent-encoded, then the header block.
pub open spec fn spec_request(method: ObfsHttpMethod, data: Seq<u8>, header_block: Seq<u8>) -> Seq<u8> {
    let start = match method {
        ObfsHttpMethod::Get => encode_utf8("GET /"@),
        ObfsHttpMethod::Post => encode_utf8("POST /"@),
    };
    start + percent_encode_all(data) + encode_utf8(" HTTP/1.1\r\n"@) + header_block
}

fn hex_digit_exec(d: u8) -> (r: u8)
    requires
        d < 16,
    ensures
        r == hex_digit(d as nat),
{
    if d < 10 { 48 + d } else { 87 + d }
}

/// Builds the disguised request around the first `encode_len` bytes.
pub fn encode_request(method: ObfsHttpMethod, data: &[u8], header_block: &[u8]) -> (r: Vec<u8>)
    ensures
        r@ == spec_request(method, data@, header_block@),
{
    let start: &str = match method {
        ObfsHttpMethod::Get => "GET /",
        ObfsHttpMethod::Post => "POST /",
    };
    let mut out: Vec<u8> = Vec::new();
    crate::bytes::push_slice(&mut out, start.as_bytes());
    let ghost head = out@;
    let mut i: usize = 0;
    while i < data.len()
        invariant
            i <= data@.len(),
            out@ == head + percent_encode_all(data@.take(i as int)),
        decreases data.len() - i,
    {
        assert(data@.take(i + 1).drop_last() == data@.take(i as int));
        let b = data[i];
        out.push(37);
        out.push(hex_digit_exec(b / 16));
        out.push(hex_digit_exec(b % 16));
        i = i + 1;
    }
    assert(data@.take(i as int) == data@);
    crate::bytes::push_slice(&mut out, " HTTP/1.1\r\n".as_bytes());
    crate::bytes::push_slice(&mut out, header_block);
    out
}

/// The number of bytes of a first write that the request line carries:
/// the smaller of the write's length and 46 plus a draw below 64.
pub open spec fn encode_len_allowed(len: nat, n: nat) -> bool {
    n <= len && n < 110 && (n == len || n >= 46)
}

/// Disguises the first write: returns the request to send and how many
/// bytes of `data` it carries.
pub fn prepare_first_write(method: ObfsHttpMethod, data: &[u8], header_block: &[u8]) -> (r: (Vec<u8>, usize))
    ensures
        encode_len_allowed(data@.len() as nat, r.1 as nat),
        r.1 <= data@.len(),
        r.0@ == spec_request(method, data@.take(r.1 as int), header_block@),
{
    let extra = random_below(64) as usize;
    let encode_len = if data.len() < 30 + 16 + extra { data.len() } else { 30 + 16 + extra };
    let head = crate::bytes::copy_range(data, 0, encode_len);
    let req = encode_request(method, head.as_slice(), header_block);
    (req, encode_len)
}

/// `\r\n\r\n` starts at `i`.
pub open spec fn is_crlfcrlf(buf: Seq<u8>, i: int) -> bool {
    buf[i] == 13 && buf[i + 1] == 10 && buf[i + 2] == 13 && buf[i + 3] == 10
}

/// Looks for the end of the reply's HTTP header in the bytes read so far:
/// the position just past the first `\r\n\r\n` that starts before the last
/// four bytes.
pub fn header_end(buf: &[u8]) -> (r: Option<usize>)
    requires
        buf@.len() >= 4,
    ensures
        match r {
            Some(n) => 4 <= n < buf@.len() && is_crlfcrlf(buf@, n - 4)
                && forall|j: int| 0 <= j < n - 4 ==> !is_crlfcrlf(buf@, j),
            None => forall|j: int| 0 <= j < buf@.len() - 4 ==> !#[trigger] is_crlfcrlf(buf@, j),
        },
{
    let mut i: usize = 0;
    while i < buf.len() - 4
        invariant
            buf@.len() >= 4,
            i <= buf@.len() - 4,
            forall|j: int| 0 <= j < i ==> !#[trigger] is_crlfcrlf(buf@, j),
        decreases buf.len() - 4 - i,
    {
        if buf[i] == 13 && buf[i + 1] == 10 && buf[i + 2] == 13 && buf[i + 3] == 10 {
            return Some(i + 4);
        }
        i = i + 1;
    }
    None
}

/// The `http_simple` obfuscation client of one configured outbound.
#[derive(Debug, Clone)]
pub struct ClientProcessor {
    pub config: HttpSimpleConfig,
}

impl ClientProcessor {
    pub fn new(config: HttpSimpleConfig) -> (r: Self)
        ensures
            r.config == config,
    {
        ClientProcessor { config }
    }

    /// The header block for a new connection to `dest`.
    pub fn header_block(&self, dest: &DestAddr) -> (r: Vec<u8>)
        requires
            self.config.hosts@.len() > 0 || dest@.domain is Some || dest@.ip is Some,
            self.config.hosts@.len() <= u32::MAX,
        ensures
            exists|host: Seq<char>, ua_index: int|
                host_allowed(&self.config, dest@, host)
                && 0 <= ua_index < 12
                && r@ == encode_utf8(#[trigger] spec_header_block(host, self.config.port, headers_view(self.config.headers@), user_agent(ua_index))),
    {
        build_header_block(&self.config, dest)
    }
}

/// Where the stripping of the reply's HTTP header is.
#[derive(Debug, Clone, Copy, PartialEq, Eq, Structural)]
pub enum StripState {
    /// Reading until the header ends.
    Stripping,
    /// Handing out what came after the header.
    WritingBuf,
    /// Reading straight through.
    Done,
}

/// The reading side of the obfuscation: drops the server's HTTP header.
#[derive(Debug)]
pub struct StripHttpHeaderStream {
    pub state: StripState,
    pub buf: Vec<u8>,
}

impl StripHttpHeaderStream {
    pub fn new() -> (r: Self)
        ensures
            r.state == StripState::Stripping,
            r.buf@.len() == 0,
    {
        StripHttpHeaderStream { state: StripState::Stripping, buf: Vec::new() }
    }

    /// Bytes read while stripping (the read must leave at least four bytes
    /// in the buffer): once `\r\n\r\n` is found (starting before the last
    /// four bytes), what follows it is kept to hand out.
    pub fn on_read(&mut self, data: &[u8])
        requires
            old(self).state == StripState::Stripping,
            old(self).buf@.len() + data@.len() >= 4,
        ensures
            ({
                let all = old(self).buf@ + data@;
                if exists|j: int| 0 <= j < all.len() - 4 && #[trigger] is_crlfcrlf(all, j) {
                    let j = choose|j: int| 0 <= j < all.len() - 4 && #[trigger] is_crlfcrlf(all, j)
                        && forall|k: int| 0 <= k < j ==> !is_crlfcrlf(all, k);
                    final(self).state == StripState::WritingBuf && final(self).buf@ == all.skip(j + 4)
                } else {
                    final(self).state == StripState::Stripping && final(self).buf@ == all
                }
            }),
    {
        push_slice(&mut self.buf, data);
        let ghost all = self.buf@;
        match header_end(self.buf.as_slice()) {
            Some(n) => {
                proof {
                    let j = (n - 4) as int;
                    assert(0 <= j < all.len() - 4 && is_crlfcrlf(all, j) && forall|k: int| 0 <= k < j ==> !is_crlfcrlf(all, k));
                    let c = choose|j: int| 0 <= j < all.len() - 4 && #[trigger] is_crlfcrlf(all, j)
                        && forall|k: int| 0 <= k < j ==> !is_crlfcrlf(all, k);
                    if c < j {
                    } else if c > j {
                        assert(!is_crlfcrlf(all, j));
                    }
                }
                self.buf = copy_range(self.buf.as_slice(), n, self.buf.len());
                self.state = StripState::WritingBuf;
            },
            None => {},
        }
    }

    /// Hands out up to `want` of the bytes after the header; once they are
    /// all out, the stream reads straight through.
    pub fn take(&mut self, want: usize) -> (r: Vec<u8>)
        requires
            old(self).state == StripState::WritingBuf,
        ensures
            ({
                let n = if want < old(self).buf@.len() { want as int } else { old(self).buf@.len() as int };
                &&& r@ == old(self).buf@.take(n)
                &&& final(self).buf@ == old(self).buf@.skip(n)
                &&& final(self).state == (if final(self).buf@.len() == 0 { StripState::Done } else { StripState::WritingBuf })
            }),
    {
        let n = if want < self.buf.len() { want } else { self.buf.len() };
        let out = copy_range(self.buf.as_slice(), 0, n);
        self.buf = copy_range(self.buf.as_slice(), n, self.buf.len());
        if self.buf.len() == 0 {
            self.state = StripState::Done;
        }
        out
    }
}

/// The header block starts with a `Host` line whose value, read as an
/// HTTP server reads a `Host` value, gives back the claimed host (free of
/// `:` and CR) and the configured port; the value names a port (holds a
/// `:`) exactly when that port is not 80, the port HTTP implies.
pub proof fn lemma_host_line(host: Seq<char>, port: u16, headers: Seq<(Seq<char>, Seq<char>)>, ua: Seq<char>)
    requires
        forall|i: int| 0 <= i < host.len() ==> host[i] != ':' && host[i] != '\r',
    ensures
        exists|v: Seq<char>, rest: Seq<char>| {
            &&& spec_header_block(host, port, headers, ua) == "Host: "@ + v + "\r\n"@ + rest
            &&& forall|i: int| 0 <= i < v.len() ==> v[i] != '\r'
            &&& split_on(v, ':')[0] == host
            &&& host_port(v) == port
            &&& (split_on(v, ':').len() == 1 <==> port == 80)
        },
{
    let suffix = if port != 80 { seq![':'] + decimal(port as nat) } else { Seq::<char>::empty() };
    let v = host + suffix;
    let others = if headers.len() == 0 { "User-Agent: "@ + ua + accept_lines() } else { header_lines(headers) };
    let rest = others + "\r\n"@;
    assert(spec_header_block(host, port, headers, ua) =~= "Host: "@ + v + "\r\n"@ + rest);
    lemma_decimal_parse(port as nat);
    if port != 80 {
        let dp = decimal(port as nat);
        assert(v =~= host + seq![':'] + dp);
        assert forall|i: int| 0 <= i < dp.len() implies dp[i] != ':' by {
            assert('0' <= dp[i] <= '9');
        }
        lemma_split_on_two(host, ':', dp);
        assert(split_on(v, ':') == seq![host, dp]);
        assert(crate::text::parse_bounded(dp, 10, 0xffff) == Some(port as nat));
        assert forall|i: int| 0 <= i < v.len() implies v[i] != '\r' by {
            if i >= host.len() + 1 {
                assert(v[i] == dp[i - host.len() - 1]);
                assert('0' <= dp[i - host.len() - 1] <= '9');
            } else if i < host.len() {
                assert(v[i] == host[i]);
            }
        }
    } else {
        assert(v =~= host);
        lemma_split_on_free(host, ':');
    }
    assert(spec_header_block(host, port, headers, ua) == "Host: "@ + v + "\r\n"@ + rest);
}

} // verus!
