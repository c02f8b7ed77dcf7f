use comet::processor::shadowsocks::handshake::ShadowsocksClientHandshakeProcessor;
use comet::processor::shadowsocks::obfs::{header_end, ObfsHttpMethod, encode_request};
use comet::processor::shadowsocks::{parse_url, MethodType, ObfsType, ProtocolType, SsrUrlError};
use comet::net::{DestAddr, IpAddr};

#[test]
fn ssr_url_parses() {
    let url = "ssr://MTI3LjAuMC4xOjgzODg6b3JpZ2luOmFlcy0yNTYtY2ZiOnBsYWluOmNHRnpjM2R2Y21RLz9yZW1hcmtzPWRHVnpkQQ==";
    let item = parse_url(url).unwrap();
    assert_eq!(item.dest.ip, Some(IpAddr::V4(0x7f000001)));
    assert_eq!(item.dest.port, Some(8388));
    assert_eq!(item.config.password, "password");
    assert_eq!(item.config.method, MethodType::Aes256Cfb);
    assert_eq!(item.config.protocol, ProtocolType::Origin);
    assert_eq!(item.config.obfs, ObfsType::Plain);
    assert_eq!(item.extras.get(&String::from("remarks")), Some(String::from("test")));
    assert!(matches!(parse_url("ss://abc"), Err(SsrUrlError::NotSsrUrl)));
}

#[test]
fn shadowsocks_address_header() {
    let mut d = DestAddr::new();
    d.set_ip(IpAddr::V4(0x01020304));
    d.set_port(80);
    let h = ShadowsocksClientHandshakeProcessor::request_header(&d).unwrap();
    assert_eq!(h, vec![1, 1, 2, 3, 4, 0, 80]);
    assert_eq!(ShadowsocksClientHandshakeProcessor::header_len(&h).unwrap(), 7);
}

#[test]
fn obfs_request_and_header_end() {
    let req = encode_request(ObfsHttpMethod::Get, &[0x01, 0xab], b"Host: x\r\n\r\n");
    assert_eq!(req, b"GET /%01%ab HTTP/1.1\r\nHost: x\r\n\r\n".to_vec());
    assert_eq!(header_end(b"HTTP/1.1 200 OK\r\n\r\nbody"), Some(19));
    assert_eq!(header_end(b"HTTP/1.1 200 OK\r\n"), None);
}
