use comet::bytes::{copy_range, push_be, push_le, read_be};
use comet::crypto::{fnv1a32_hash, hash_bytes, md5, sha224, HashKind};
use comet::net::{Address, DestAddr, IpAddr, SocketAddress, StreamType};
use comet::rule_provider::rule_set::to_reversed_fqdn;
use comet::utils::{eof, io_other_error, crypto_error, urlsafe_base64_decode_string, DecodeError, IoError};

#[test]
fn reversed_fqdn_of_a_domain() {
    assert_eq!(to_reversed_fqdn("www.google.com"), "com.google.www.");
    assert_eq!(to_reversed_fqdn("cn"), "cn.");
    assert_eq!(to_reversed_fqdn(""), ".");
}

#[test]
fn fnv1a32_known_values() {
    assert_eq!(fnv1a32_hash(b""), 0x811c9dc5);
    assert_eq!(fnv1a32_hash(b"a"), 0xe40c292c);
}

#[test]
fn md5_of_empty_input() {
    let d = md5(b"");
    let expect: Vec<u8> = vec![
        0xd4, 0x1d, 0x8c, 0xd9, 0x8f, 0x00, 0xb2, 0x04, 0xe9, 0x80, 0x09, 0x98, 0xec, 0xf8, 0x42, 0x7e,
    ];
    assert_eq!(d, expect);
    assert_eq!(hash_bytes(HashKind::Md5, b""), expect);
    assert_eq!(hash_bytes(HashKind::Sha1, b"").len(), 20);
}

#[test]
fn sha224_length() {
    assert_eq!(sha224(b"password").len(), 28);
}

#[test]
fn big_and_little_endian_bytes() {
    let mut v = Vec::new();
    push_be(&mut v, 0x0102, 2);
    push_le(&mut v, 0x0304, 2);
    assert_eq!(v, vec![1, 2, 4, 3]);
    assert_eq!(read_be(&[0, 0x12, 0x34, 0x56], 1, 3), 0x123456);
    assert_eq!(copy_range(&[1, 2, 3, 4], 1, 3), vec![2, 3]);
}

#[test]
fn urlsafe_base64_text() {
    assert_eq!(urlsafe_base64_decode_string(b"aGVsbG8=").unwrap(), "hello");
    assert_eq!(urlsafe_base64_decode_string(b"!!!!").unwrap_err(), DecodeError::Base64);
    assert_eq!(urlsafe_base64_decode_string(b"_w==").unwrap_err(), DecodeError::Utf8);
}

#[test]
fn io_error_values() {
    assert!(matches!(eof(), IoError::UnexpectedEof));
    match crypto_error() {
        IoError::Other(m) => assert_eq!(m, "crypto error"),
        _ => panic!("not an other error"),
    }
    match io_other_error("boom") {
        IoError::Other(m) => assert_eq!(m, "boom"),
        _ => panic!("not an other error"),
    }
}

#[test]
fn dest_addr_host_from_text() {
    let mut d = DestAddr::new();
    d.set_host_from_str("10.0.0.1");
    assert_eq!(d.ip, Some(IpAddr::V4(0x0a000001)));
    assert!(d.domain.is_none());
    assert!(!d.is_valid());
    d.set_port(80);
    assert!(d.is_valid());
    let mut e = DestAddr::new();
    e.set_host_from_str("example.com");
    assert_eq!(e.domain.as_deref(), Some("example.com"));
    assert!(e.ip_or_error().is_err());
    assert!(e.port_or_error().is_err());
}

#[test]
fn socket_address_text() {
    let a = SocketAddress::new_ip(IpAddr::V4(0x7f000001), 1080);
    assert_eq!(a.to_text(), "127.0.0.1:1080");
    let b = SocketAddress::new_domain("example.org", 443);
    assert_eq!(b.to_text(), "example.org:443");
    let c = SocketAddress::new(Address::Ip(IpAddr::V6(1)), 53);
    assert_eq!(c.to_text(), "::1:53");
    assert_eq!(StreamType::default(), StreamType::Tcp);
}
