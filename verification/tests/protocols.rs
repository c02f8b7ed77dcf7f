use comet::net::{DestAddr, IpAddr};
use comet::processor::android::{AndroidNatProcessor, NatError};
use comet::processor::any_proxy::{AnyProxyServerProcessor, ProxyProtocol};
use comet::processor::http::client::{ClientProcessor as HttpClient, HttpClientError};
use comet::processor::http::server::{HttpServerError, ServerProcessor, ServerStep};
use comet::processor::linux::{find_uid, scan_uid, table_paths, FindUidError, UidScan};
use comet::processor::set_dest::SetDestProcessor;
use comet::processor::sniffer::http::sniff;
use comet::processor::sniffer::{SniffAction, SniffStatus, SniffType, SnifferConfig, SnifferProcessor};
use comet::processor::socks5::{Socks5Error, Socks5ProxyServerProcessor};
use comet::processor::timeout::{TimeoutPoll, TimeoutReader};
use comet::processor::trojan::{hex_encode, ClientConfig as TrojanConfig, ClientProcessor as TrojanClient, TrojanError};
use comet::processor::ws::{incoming_item, WsIncoming, WsItem};
use comet::router::matching::{Connection, TransportType};
use comet::utils::IoError;

fn conn() -> Connection {
    Connection {
        src_ip: IpAddr::V4(0x7f000001),
        dest_addr: DestAddr::new(),
        typ: TransportType::Tcp,
        inbound_tag: String::from("in"),
    }
}

#[test]
fn socks5_greeting_and_request() {
    let p = Socks5ProxyServerProcessor::new();
    assert_eq!(p.read_greeting(&[]), Ok(None));
    assert_eq!(p.read_greeting(&[4]), Err(Socks5Error::UnsupportedVersion(4)));
    assert_eq!(p.read_greeting(&[5, 2, 0]), Ok(None));
    assert_eq!(p.read_greeting(&[5, 2, 0, 2]), Ok(Some(4)));
    assert_eq!(p.method_selection(), vec![5, 0]);

    let mut c = conn();
    assert_eq!(p.read_request(&[5, 2, 0, 1], &mut c), Err(Socks5Error::UnsupportedCommand(2)));
    assert_eq!(p.read_request(&[5, 1, 0, 9], &mut c), Err(Socks5Error::InvalidAtyp(9)));
    assert_eq!(p.read_request(&[5, 1, 0, 1, 10, 0, 0], &mut c), Ok(None));
    assert_eq!(p.read_request(&[5, 1, 0, 1, 10, 0, 0, 1, 0x01, 0xbb], &mut c), Ok(Some(10)));
    assert_eq!(c.dest_addr.ip, Some(IpAddr::V4(0x0a000001)));
    assert_eq!(c.dest_addr.port, Some(443));

    let mut d = conn();
    let req = [5u8, 1, 0, 3, 3, b'a', b'b', b'c', 0, 80];
    assert_eq!(p.read_request(&req, &mut d), Ok(Some(10)));
    assert_eq!(d.dest_addr.domain.as_deref(), Some("abc"));
    assert_eq!(d.dest_addr.port, Some(80));

    let mut e = conn();
    let mut v6 = vec![5u8, 1, 0, 4];
    v6.extend_from_slice(&[0; 15]);
    v6.push(1);
    v6.extend_from_slice(&[0, 53]);
    assert_eq!(p.read_request(&v6, &mut e), Ok(Some(22)));
    assert_eq!(e.dest_addr.ip, Some(IpAddr::V6(1)));
    assert_eq!(p.connect_reply(), vec![5, 0, 0, 1, 0, 0, 0, 0, 8, 4]);
}

#[test]
fn any_proxy_picks_by_first_byte() {
    let p = AnyProxyServerProcessor::new();
    assert_eq!(p.protocol(5), ProxyProtocol::Socks5);
    assert_eq!(p.protocol(4), ProxyProtocol::Socks5);
    assert_eq!(p.protocol(b'G'), ProxyProtocol::Http);
}

#[test]
fn http_server_connect() {
    let s = ServerProcessor::new();
    let mut c = conn();
    let req = b"CONNECT example.com:443 HTTP/1.1\r\nHost: example.com:443\r\n\r\n";
    match s.on_read(req, req.len(), &mut c) {
        Ok(ServerStep::Ready { consumed, reply }) => {
            assert_eq!(consumed, req.len());
            assert_eq!(reply.unwrap(), b"HTTP/1.1 200 Connection Established\r\n\r\n".to_vec());
        },
        _ => panic!("request not accepted"),
    }
    assert_eq!(c.dest_addr.domain.as_deref(), Some("example.com"));
    assert_eq!(c.dest_addr.port, Some(443));
}

#[test]
fn http_server_plain_request_by_url() {
    let s = ServerProcessor::new();
    let mut c = conn();
    let req = b"GET http://10.1.2.3:8080/x HTTP/1.1\r\nHost: other\r\n\r\n";
    match s.on_read(req, req.len(), &mut c) {
        Ok(ServerStep::Ready { consumed, reply }) => {
            assert_eq!(consumed, 0);
            assert!(reply.is_none());
        },
        _ => panic!("request not accepted"),
    }
    assert_eq!(c.dest_addr.ip, Some(IpAddr::V4(0x0a010203)));
    assert_eq!(c.dest_addr.port, Some(8080));
    assert!(c.dest_addr.domain.is_none());
}

#[test]
fn http_server_host_header_without_port() {
    let s = ServerProcessor::new();
    let mut c = conn();
    let req = b"GET / HTTP/1.1\r\nhost: example.net\r\n\r\n";
    assert!(matches!(s.on_read(req, req.len(), &mut c), Ok(ServerStep::Ready { consumed: 0, reply: None })));
    assert_eq!(c.dest_addr.domain.as_deref(), Some("example.net"));
    assert_eq!(c.dest_addr.port, Some(80));
}

#[test]
fn http_server_errors_and_partial() {
    let s = ServerProcessor::new();
    let mut c = conn();
    let partial = b"GET / HTTP/1.1\r\nHost: a";
    assert!(matches!(s.on_read(partial, 5, &mut c), Ok(ServerStep::NeedMore)));
    assert_eq!(s.on_read(partial, 0, &mut c).err(), Some(HttpServerError::Eof));
    let no_host = b"GET / HTTP/1.1\r\n\r\n";
    assert_eq!(s.on_read(no_host, no_host.len(), &mut c).err(), Some(HttpServerError::NoHost));
    assert_eq!(s.on_read(b"\x00\x01 bad", 6, &mut c).err(), Some(HttpServerError::Parse));
}

#[test]
fn http_client_connect_request() {
    let h = HttpClient::new();
    let mut c = conn();
    assert_eq!(h.connect_request(&c), Err(HttpClientError::NoIp));
    c.dest_addr.set_domain("example.com");
    assert_eq!(h.connect_request(&c), Err(HttpClientError::NoPort));
    c.dest_addr.set_port(443);
    assert_eq!(h.connect_request(&c).unwrap(), "CONNECT example.com:443 HTTP/1.1\r\nHost: example.com\r\n\r\n");
    let mut d = conn();
    d.dest_addr.set_ip(IpAddr::V4(0x01020304));
    d.dest_addr.set_port(80);
    assert_eq!(h.connect_request(&d).unwrap(), "CONNECT 1.2.3.4:80 HTTP/1.1\r\nHost: 1.2.3.4\r\n\r\n");
}

#[test]
fn http_client_reply() {
    let h = HttpClient::new();
    let reply = b"HTTP/1.1 200 OK\r\n\r\nrest";
    assert_eq!(h.on_read(reply, reply.len()), Ok(Some(19)));
    assert_eq!(h.on_read(b"HTTP/1.1 200", 12), Ok(None));
    assert_eq!(h.on_read(b"HTTP/1.1 200", 0), Err(HttpClientError::Eof));
    assert_eq!(h.on_read(b"\x00garbage\r\n\r\n", 12), Err(HttpClientError::Parse));
}

#[test]
fn trojan_password_and_request() {
    assert_eq!(hex_encode(&[0x0f, 0xa0]), "0fa0");
    let t = TrojanClient::new(TrojanConfig { password: String::from("password") });
    assert_eq!(t.password, "d63dc919e201d7bc4c825630d2cf25fdc93d4b2f0d46706d29038d01");
    let mut c = conn();
    assert_eq!(t.request(&c), Err(TrojanError::NoIp));
    c.dest_addr.set_ip(IpAddr::V4(0x01020304));
    assert_eq!(t.request(&c), Err(TrojanError::NoPort));
    c.dest_addr.set_port(0x1234);
    let r = t.request(&c).unwrap();
    let mut expect = t.password.as_bytes().to_vec();
    expect.extend_from_slice(&[0x0d, 0x0a, 0x01, 1, 1, 2, 3, 4, 0x12, 0x34, 0x0d, 0x0a]);
    assert_eq!(r, expect);
    let mut d = conn();
    d.dest_addr.set_domain("ab");
    d.dest_addr.set_port(80);
    let r2 = t.request(&d).unwrap();
    assert_eq!(&r2[56..], &[0x0d, 0x0a, 0x01, 3, 2, b'a', b'b', 0, 80, 0x0d, 0x0a]);
}

#[test]
fn sniff_http_host() {
    match sniff(b"GET / HTTP/1.1\r\nHost: example.com:8080\r\n\r\n") {
        SniffStatus::Success(h) => assert_eq!(h, "example.com:8080"),
        other => panic!("unexpected {:?}", other),
    }
    assert!(matches!(sniff(b"GET / HTTP/1.1\r\nHo"), SniffStatus::NoClue));
    match sniff(b"GET / HTTP/1.1\r\nHost: partial.example\r\nAcc") {
        SniffStatus::Success(h) => assert_eq!(h, "partial.example"),
        other => panic!("unexpected {:?}", other),
    }
    assert!(matches!(sniff(b"GET / HTTP/1.1\r\n\r\n"), SniffStatus::Fail("No Host")));
    assert!(matches!(sniff(b"\x16\x03\x01"), SniffStatus::Fail("Not HTTP")));
}

#[test]
fn sniffer_sets_destination() {
    let p = SnifferProcessor { config: SnifferConfig::default() };
    let mut st = p.start();
    assert_eq!(st.attempts, 0);
    assert!(!st.http_failed && !st.tls_failed);
    let mut c = conn();
    let buf = b"GET / HTTP/1.1\r\nHost: 10.0.0.2\r\n\r\n";
    let a = p.on_read(&mut st, buf, buf.len(), SniffStatus::NoClue, &mut c);
    assert_eq!(a, SniffAction::Done(Some(SniffType::Http)));
    assert_eq!(c.dest_addr.ip, Some(IpAddr::V4(0x0a000002)));

    let mut st2 = p.start();
    let mut c2 = conn();
    let tls = b"\x16\x03\x01";
    let a2 = p.on_read(&mut st2, tls, 3, SniffStatus::Success(String::from("example.org")), &mut c2);
    assert_eq!(a2, SniffAction::Done(Some(SniffType::Tls)));
    assert_eq!(c2.dest_addr.domain.as_deref(), Some("example.org"));

    let mut st3 = p.start();
    let mut c3 = conn();
    assert_eq!(p.on_read(&mut st3, tls, 3, SniffStatus::NoClue, &mut c3), SniffAction::ReadMore);
    assert!(st3.http_failed);
    assert_eq!(st3.attempts, 1);
    assert_eq!(p.on_read(&mut st3, tls, 3, SniffStatus::Fail("Not TLS"), &mut c3), SniffAction::Done(None));
    assert_eq!(p.on_read(&mut p.start(), tls, 0, SniffStatus::NoClue, &mut c3), SniffAction::Done(None));
}

#[test]
fn sniffer_gives_up_after_five_reads() {
    let p = SnifferProcessor { config: SnifferConfig { types: vec![SniffType::Tls], override_dest: false } };
    let mut st = p.start();
    assert!(st.http_failed);
    let mut c = conn();
    let mut reads = 0;
    while p.should_read(&st) {
        reads += 1;
        let a = p.on_read(&mut st, b"x", 1, SniffStatus::NoClue, &mut c);
        if a != SniffAction::ReadMore {
            assert_eq!(a, SniffAction::Done(None));
            break;
        }
    }
    assert_eq!(reads, 5);
}

#[test]
fn find_uid_in_socket_table() {
    let table = "  sl  local_address rem_address   st tx_queue rx_queue tr tm->when retrnsmt   uid  timeout inode\n\
   0: 0100007F:0035 00000000:0000 0A 00000000:00000000 00:00000000 00000000   101        0 1234\n\
   1: 0100007F:1F90 00000000:0000 0A 00000000:00000000 00:00000000 00000000  1000        0 5678\n";
    assert_eq!(find_uid(table, 0x1f90), Ok(Some(1000)));
    assert_eq!(find_uid(table, 53), Ok(Some(101)));
    assert_eq!(find_uid(table, 22), Ok(None));
    assert_eq!(find_uid("", 22), Err(FindUidError::NoHeading));
    assert_eq!(find_uid("sl local\n", 22), Err(FindUidError::NoUidColumn));
    assert_eq!(scan_uid("a b c d uid\n0: 12\n", 1), UidScan::Malformed);
    assert_eq!(find_uid("a b c d uid\n0: zzzz\n", 1), Err(FindUidError::BadPort));
    assert_eq!(find_uid("a b c d uid\n0: 0001\n", 1), Err(FindUidError::NoUid));
    assert_eq!(find_uid("a b c d uid\n0: 0001 x y\n", 1), Err(FindUidError::BadUid));
    assert_eq!(table_paths(TransportType::Tcp), vec!["/proc/net/tcp6", "/proc/net/tcp"]);
    assert_eq!(table_paths(TransportType::Udp), vec!["/proc/net/udp", "/proc/net/udp6"]);
}

#[test]
fn android_nat_entry() {
    let p = AndroidNatProcessor::new();
    let mut c = conn();
    assert_eq!(p.process_conn(&mut c, None), Err(NatError::EntryNotFound));
    assert_eq!(p.process_conn(&mut c, Some((IpAddr::V4(5), 99))), Ok(()));
    assert_eq!(c.dest_addr.ip, Some(IpAddr::V4(5)));
    assert_eq!(c.dest_addr.port, Some(99));
}

#[test]
fn set_dest_prefers_configured() {
    let mut configured = DestAddr::new();
    configured.set_domain("conf.example");
    let mut recorded = DestAddr::new();
    recorded.set_domain("rec.example");
    let p = SetDestProcessor { dest: Some(configured) };
    let mut c = conn();
    p.prepare(&mut c, Some(&recorded));
    assert_eq!(c.dest_addr.domain.as_deref(), Some("conf.example"));
    let q = SetDestProcessor { dest: None };
    let mut d = conn();
    q.prepare(&mut d, Some(&recorded));
    assert_eq!(d.dest_addr.domain.as_deref(), Some("rec.example"));
    let mut e = conn();
    q.prepare(&mut e, None);
    assert!(e.dest_addr.domain.is_none());
}

#[test]
fn timeout_reader_rearms() {
    let mut r = TimeoutReader::new(0);
    assert_eq!(r.timeout_idle, None);
    assert_eq!(r.on_poll(true, false), TimeoutPoll::Ready { rearm: None });
    assert_eq!(r.on_poll(false, true), TimeoutPoll::Pending);
    let mut t = TimeoutReader::new(30);
    assert_eq!(t.on_poll(false, true), TimeoutPoll::Pending);
    assert_eq!(t.on_poll(true, false), TimeoutPoll::Ready { rearm: Some(30) });
    assert_eq!(t.on_poll(false, false), TimeoutPoll::Pending);
    assert_eq!(t.on_poll(false, true), TimeoutPoll::TimedOut);
}

#[test]
fn ws_messages() {
    assert!(matches!(incoming_item(WsIncoming::Binary(vec![1, 2])), WsItem::Data(d) if d == vec![1, 2]));
    assert!(matches!(incoming_item(WsIncoming::Close), WsItem::Skip));
    match incoming_item(WsIncoming::Other) {
        WsItem::Fail(IoError::Other(m)) => assert_eq!(m, "unexpected message type"),
        _ => panic!("expected a failure"),
    }
}
