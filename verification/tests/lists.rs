use comet::processor::tls_mitm::{ca_common_name, ca_file_name, CertCache};
use comet::cfb::CfbStream;
use comet::net::{DestAddr, IpAddr};
use comet::processor::shadowsocks::obfs::{StripHttpHeaderStream, StripState};
use comet::processor::shadowsocks::stream_cipher::{ClientStream, SsStreamCipherKind};
use comet::protos::{decode_geoip_list, decode_geosite_list, read_fields};
use comet::router::matching::MatchMode;
use comet::rule_provider::rule_set::DomainType;
use comet::rule_provider::{DataFormat, ParseError, ProviderConfig, ProviderSource};
use comet::utils::connector::{ConnectorError, InternalHttpConnector};
use comet::utils::metered_stream::{Direction, MeteredStream};
use comet::utils::prepend_io::{PrependReader, PrependWrite, PrependWriter};
use comet::utils::IoError;

const GEOIP: [u8; 22] = [10, 4, 10, 2, 85, 83, 10, 14, 10, 2, 67, 78, 18, 8, 10, 4, 1, 2, 0, 0, 16, 16];
const GEOSITE: [u8; 28] = [
    10, 26, 10, 2, 99, 110, 18, 20, 8, 2, 18, 9, 98, 97, 105, 100, 117, 46, 99, 111, 109, 26, 5, 10, 1, 107, 16, 1,
];

#[test]
fn decode_geoip_file() {
    let l = decode_geoip_list(&GEOIP).unwrap();
    assert_eq!(l.len(), 2);
    assert_eq!(l[0].country_code, "US");
    assert!(l[0].cidr.is_empty());
    assert_eq!(l[1].country_code, "CN");
    assert_eq!(l[1].cidr, vec![(vec![1, 2, 0, 0], 16)]);
    assert!(decode_geoip_list(&GEOIP[..10]).is_none());
    assert!(decode_geoip_list(&[]).unwrap().is_empty());
}

#[test]
fn decode_geosite_file() {
    let l = decode_geosite_list(&GEOSITE).unwrap();
    assert_eq!(l.len(), 1);
    assert_eq!(l[0].country_code, "cn");
    assert_eq!(l[0].domain.len(), 1);
    assert_eq!(l[0].domain[0].type_pb, DomainType::Domain);
    assert_eq!(l[0].domain[0].value, "baidu.com");
}

#[test]
fn unknown_fields_are_skipped() {
    // field 3 as a varint, field 4 as 8 fixed bytes, field 5 as 4 fixed bytes
    let data = [24u8, 0x96, 0x01, 33, 1, 2, 3, 4, 5, 6, 7, 8, 45, 1, 2, 3, 4];
    let fs = read_fields(&data, 0, data.len(), &[10u32]).unwrap();
    assert_eq!(fs.len(), 3);
    assert!(decode_geoip_list(&data).unwrap().is_empty());
    // wire type 3 (a group) is refused
    assert!(read_fields(&[27u8], 0, 1, &[]).is_none());
}

#[test]
fn provider_parse_picks_the_list() {
    let ip = ProviderConfig { format: DataFormat::V2rayGeoIP, source: ProviderSource::Local { path: String::from("geoip.dat") } };
    let rs = ip.parse(&GEOIP, "cn").unwrap();
    let mut d = DestAddr::new();
    d.set_ip(IpAddr::V4(0x01020304));
    assert!(rs.is_match(&d, MatchMode::Any));
    assert!(matches!(ip.parse(&GEOIP, "jp"), Err(ParseError::KeyNotFound)));
    assert!(matches!(ip.parse(&GEOIP[..5], "cn"), Err(ParseError::Decode)));
    let site = ProviderConfig { format: DataFormat::V2rayGeoSite, source: ProviderSource::Remote { url: String::from("http://x"), interval: 60 } };
    let rs2 = site.parse(&GEOSITE, "CN").unwrap();
    let mut e = DestAddr::new();
    e.set_domain("www.baidu.com");
    assert!(rs2.is_match(&e, MatchMode::DomainOnly));
}

#[test]
fn cfb_stream_pieces_and_roundtrip() {
    let key = [3u8; 32];
    let iv = [5u8; 16];
    let data: Vec<u8> = (0..40u8).collect();
    let mut whole = data.clone();
    CfbStream::new(&key, &iv, false).apply(&mut whole);
    let mut enc = CfbStream::new(&key, &iv, false);
    let mut a = data[..7].to_vec();
    let mut b = data[7..].to_vec();
    enc.apply(&mut a);
    enc.apply(&mut b);
    a.extend_from_slice(&b);
    assert_eq!(a, whole);
    let mut back = whole.clone();
    CfbStream::new(&key, &iv, true).apply(&mut back);
    assert_eq!(back, data);
}

#[test]
fn ss_stream_roundtrip() {
    let key = [9u8; 32];
    let salt = [1u8; 16];
    let mut client = ClientStream::new(SsStreamCipherKind::Aes256Cfb, &key, &salt);
    let first = client.prepare_write(b"hello");
    assert_eq!(&first[..16], &salt);
    assert_eq!(first.len(), 21);
    let second = client.prepare_write(b"world");
    assert_eq!(second.len(), 5);
    let mut peer = ClientStream::new(SsStreamCipherKind::Aes256Cfb, &key, &[0u8; 16]);
    assert!(matches!(peer.on_eof(), Err(IoError::UnexpectedEof)));
    assert!(peer.on_read(&first[..10]).is_empty());
    let mut got = peer.on_read(&first[10..]);
    got.extend_from_slice(&peer.on_read(&second));
    assert_eq!(got, b"helloworld".to_vec());
    assert!(peer.on_eof().is_ok());
}

#[test]
fn strip_http_header() {
    let mut s = StripHttpHeaderStream::new();
    s.on_read(b"HTTP/1.1 200 OK\r\n");
    assert_eq!(s.state, StripState::Stripping);
    s.on_read(b"\r\nabc");
    assert_eq!(s.state, StripState::WritingBuf);
    assert_eq!(s.take(2), b"ab".to_vec());
    assert_eq!(s.take(10), b"c".to_vec());
    assert_eq!(s.state, StripState::Done);
}

#[test]
fn prepend_reader_and_writer() {
    let mut r = PrependReader::new(vec![1, 2, 3]);
    assert_eq!(r.read(2), Some(vec![1, 2]));
    assert_eq!(r.read(5), Some(vec![3]));
    assert_eq!(r.read(5), None);
    assert_eq!(PrependReader::new(vec![]).read(1), None);

    let mut w = PrependWriter::new(vec![9, 9]);
    match w.start_write(&[1, 2, 3]) {
        PrependWrite::Send(s) => assert_eq!(s, vec![9, 9, 1, 2, 3]),
        PrependWrite::Through => panic!("expected the prepended bytes"),
    }
    assert_eq!(w.finish_write(2), None);
    assert!(matches!(w.start_write(&[1, 2, 3]), PrependWrite::Send(s) if s == vec![1, 2, 3]));
    assert_eq!(w.finish_write(3), Some(3));
    assert!(matches!(w.start_write(&[4]), PrependWrite::Through));
}

#[test]
fn metered_counts_wrap() {
    let mut m = MeteredStream::new_inbound("socks");
    assert_eq!(m.direction, Direction::Inbound);
    m.on_read(10, 25);
    m.on_write(7);
    assert_eq!((m.rx, m.tx), (15, 7));
    m.tx = u64::MAX;
    m.on_write(2);
    assert_eq!(m.tx, 1);
    assert_eq!(MeteredStream::new_outbound("direct").direction, Direction::Outbound);
}

#[test]
fn connector_targets() {
    let c = InternalHttpConnector::new("direct");
    let t = c.target(Some("example.com"), None, true).unwrap();
    assert_eq!(t.domain.as_deref(), Some("example.com"));
    assert_eq!(t.port, Some(443));
    let u = c.target(Some("10.0.0.1"), Some(8080), false).unwrap();
    assert_eq!(u.ip, Some(IpAddr::V4(0x0a000001)));
    assert_eq!(u.port, Some(8080));
    assert_eq!(c.target(None, None, false).unwrap_err(), ConnectorError::MissingHost);
    assert_eq!(c.target(Some("a"), None, false).unwrap().port, Some(80));
}

#[test]
fn tls_mitm_names() {
    assert_eq!(ca_file_name("main"), "ca_main.der");
    assert_eq!(ca_common_name(), "Comet Self-Signed Certificate");
    let mut c = CertCache::new();
    assert!(!c.contains("a.example"));
    c.insert("a.example");
    assert!(c.contains("a.example"));
    assert!(!c.contains("b.example"));
}

#[test]
fn prepend_writer_sends_prepended_bytes_once() {
    let mut w = PrependWriter::new(vec![7, 8, 9]);
    let mut inner: Vec<u8> = Vec::new();
    let s1 = match w.start_write(&[1, 2]) {
        PrependWrite::Send(s) => s,
        PrependWrite::Through => panic!("expected a send"),
    };
    inner.extend_from_slice(&s1[..2]);
    assert_eq!(w.finish_write(2), None);
    let s2 = match w.start_write(&[1, 2]) {
        PrependWrite::Send(s) => s,
        PrependWrite::Through => panic!("expected a send"),
    };
    assert_eq!(s2, vec![9, 1, 2]);
    inner.extend_from_slice(&s2[..2]);
    assert_eq!(w.finish_write(2), Some(1));
    assert_eq!(inner, vec![7, 8, 9, 1]);
}

#[test]
fn buffered_and_one_shot_cfb_agree() {
    let key = [4u8; 16];
    let iv = [6u8; 16];
    let data: Vec<u8> = (0..37u8).collect();
    let mut one = data.clone();
    comet::crypto::aes128_cfb_encrypt(&key, &iv, &mut one);
    let mut s = CfbStream::new(&key, &iv, false);
    let mut a = data[..5].to_vec();
    let mut b = data[5..].to_vec();
    s.apply(&mut a);
    s.apply(&mut b);
    a.extend_from_slice(&b);
    assert_eq!(a, one);
    let mut back = one.clone();
    comet::crypto::aes128_cfb_decrypt(&key, &iv, &mut back);
    assert_eq!(back, data);
}
