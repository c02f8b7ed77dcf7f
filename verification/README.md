# comet

The verified core of a rule-based proxy, written for Verus.

- `src/` is the library: protocol codecs and framing (SOCKS5, HTTP proxying, Shadowsocks
  and its SSR layers, VMess, Trojan, DNS forwarding), routing rules and rule
  lists (including the V2Ray `GeoIP`/`GeoSite` file format), sniffing, and
  the processor registry. Its functions carry contracts that Verus
  proves, except the small trusted wrappers through which cryptography and
  the parsing of HTTP heads, URLs, regular expressions and DNS messages come
  from their crates: Verus takes those wrappers' contracts as given.
- `app/` is ordinary Rust around the library: configuration files, sockets,
  files under `/proc`, TLS setup and the read/write loops that feed the
  library's decision functions.
- `tests/` runs the library on concrete values.
