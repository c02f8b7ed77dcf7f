use comet::crypto::{aes128_cfb_decrypt, aes128_cfb_encrypt, fnv1a32_hash, md5};
use comet::net::{DestAddr, IpAddr};
use comet::processor::vmess::alter_id::{new_alter_ids, UserId};
use comet::processor::vmess::crypto::{generate_chacha20poly1305_key, ShakeGenerator, VmessNonceSeq};
use comet::processor::vmess::session::{ClientSession, RequestHeaderError, ResponseHeaderError};
use comet::processor::vmess::{
    ChunkCrypter, ChunkReader, ChunkWriter, ClientConfig, ClientProcessor, ReadAction, ReadError, ReaderState, SecurityType,
};
use comet::router::matching::{Connection, TransportType};

fn uuid() -> uuid::Uuid {
    let mut b = [0u8; 16];
    for (i, x) in b.iter_mut().enumerate() {
        *x = (i + 1) as u8;
    }
    uuid::Uuid::from_bytes(b)
}

fn conn(port: Option<u16>) -> Connection {
    let mut d = DestAddr::new();
    d.set_domain("example.com");
    d.port = port;
    Connection { src_ip: IpAddr::V4(1), dest_addr: d, typ: TransportType::Tcp, inbound_tag: String::from("in") }
}

#[test]
fn nonce_sequence_counts_up() {
    let tail: Vec<u8> = (1..=10).collect();
    let mut n = VmessNonceSeq::new(&tail);
    let first = n.advance().unwrap();
    assert_eq!(&first[..2], &[0, 0]);
    assert_eq!(&first[2..], &tail[..]);
    let second = n.advance().unwrap();
    assert_eq!(&second[..2], &[0, 1]);
    n.counter = 0xffff;
    let last = n.advance().unwrap();
    assert_eq!(&last[..2], &[0xff, 0xff]);
    assert_eq!(n.counter, 0);
}

#[test]
fn chacha_key_is_two_md5s() {
    let k = generate_chacha20poly1305_key(b"abc");
    assert_eq!(k.len(), 32);
    assert_eq!(&k[..16], &[144, 1, 80, 152, 60, 210, 79, 176, 214, 150, 63, 125, 40, 225, 127, 114]);
    assert_eq!(&k[16..], &[175, 93, 169, 244, 90, 247, 163, 0, 227, 173, 237, 151, 47, 143, 246, 135]);
}

#[test]
fn shake_masks_and_padding() {
    let nonce: Vec<u8> = (0..16).collect();
    let mut s = ShakeGenerator::new(&nonce);
    assert_eq!(s.next_padding(), (152 * 256 + 72) % 64);
    assert_eq!(s.encode(0), 25 * 256 + 70);
    assert_eq!(s.encode(0xffff), !(222u16 * 256 + 133));
    assert_eq!(s.max_padding(), 64);
}

#[test]
fn user_id_command_key_and_alter_ids() {
    let u = UserId::new(uuid());
    assert_eq!(u.cmd_key(), vec![25, 52, 227, 185, 8, 74, 147, 238, 52, 9, 98, 242, 235, 250, 240, 13]);
    assert_eq!(u.uuid(), uuid());
    assert!(u.eq(&UserId::new(uuid())));
    let ids = new_alter_ids(&u, 2);
    assert_eq!(ids.len(), 2);
    assert_eq!(ids[0].uuid().as_bytes(), &[150, 123, 61, 190, 115, 83, 185, 191, 244, 194, 73, 93, 216, 117, 170, 199]);
    assert!(!ids[0].eq(&u));
    assert!(new_alter_ids(&u, 0).is_empty());
}

#[test]
fn session_keys_from_parts() {
    let u = UserId::new(uuid());
    let key = [7u8; 16];
    let iv = [9u8; 16];
    let s = ClientSession::from_parts(&u, &key, &iv, 1_700_000_000, 42);
    assert_eq!(s.response_key, md5(&key));
    assert_eq!(s.response_iv, md5(&iv));
    assert_eq!(s.cmd_iv, vec![122, 41, 215, 189, 201, 114, 170, 239, 177, 245, 78, 82, 5, 88, 158, 120]);
    assert_eq!(s.auth_info, vec![11, 139, 35, 106, 142, 243, 73, 195, 224, 119, 113, 7, 32, 207, 117, 241]);
    assert_eq!(s.cmd_key, u.cmd_key());
    assert_eq!(s.auth_v, 42);
}

#[test]
fn request_header_layout() {
    let u = UserId::new(uuid());
    let s = ClientSession::from_parts(&u, &[7u8; 16], &[9u8; 16], 1_700_000_000, 42);
    let c = conn(Some(443));
    assert_eq!(s.encode_request_header_with(SecurityType::Auto, &c, &[]), Err(RequestHeaderError::AutoSecurity));
    assert_eq!(s.encode_request_header_with(SecurityType::Aes128Gcm, &conn(None), &[]), Err(RequestHeaderError::NoPort));
    let mut nohost = conn(Some(1));
    nohost.dest_addr.domain = None;
    assert_eq!(s.encode_request_header_with(SecurityType::Aes128Gcm, &nohost, &[]), Err(RequestHeaderError::NoHost));

    let h = s.encode_request_header_with(SecurityType::Chacha20Poly1305, &c, &[0xaa, 0xbb]).unwrap();
    assert_eq!(&h[..16], &s.auth_info[..]);
    let mut body = h[16..].to_vec();
    aes128_cfb_decrypt(&s.cmd_key, &s.cmd_iv, &mut body);
    let n = body.len();
    let mut expect = vec![1u8];
    expect.extend_from_slice(&[9u8; 16]);
    expect.extend_from_slice(&[7u8; 16]);
    expect.extend_from_slice(&[42, 0x0d, 0x24, 0, 1, 0x01, 0xbb, 2, 11]);
    expect.extend_from_slice(b"example.com");
    expect.extend_from_slice(&[0xaa, 0xbb]);
    assert_eq!(&body[..n - 4], &expect[..]);
    assert_eq!(&body[n - 4..], &fnv1a32_hash(&expect).to_be_bytes());

    let random = s.encode_request_header(SecurityType::Aes128Gcm, &c).unwrap();
    assert!(random.len() >= h.len() - 2 && random.len() <= h.len() + 13);
}

#[test]
fn response_header_check() {
    let u = UserId::new(uuid());
    let s = ClientSession::from_parts(&u, &[1u8; 16], &[2u8; 16], 5, 77);
    assert_eq!(s.decode_response_header(&[1, 2, 3]), Err(ResponseHeaderError::TooShort));
    let mut good = vec![77u8, 0, 0, 0];
    aes128_cfb_encrypt(&s.response_key, &s.response_iv, &mut good);
    assert_eq!(s.decode_response_header(&good), Ok(()));
    let mut wrong = vec![78u8, 0, 0, 0];
    aes128_cfb_encrypt(&s.response_key, &s.response_iv, &mut wrong);
    assert_eq!(s.decode_response_header(&wrong), Err(ResponseHeaderError::AuthMismatch));
    let mut dynamic = vec![77u8, 0, 0, 1];
    aes128_cfb_encrypt(&s.response_key, &s.response_iv, &mut dynamic);
    assert_eq!(s.decode_response_header(&dynamic), Err(ResponseHeaderError::DynamicPort));
}

#[test]
fn chunk_writer_frame() {
    let u = UserId::new(uuid());
    let s = ClientSession::from_parts(&u, &[1u8; 16], &[2u8; 16], 5, 77);
    let mut w = ChunkWriter::new(&s, SecurityType::Aes128Gcm);
    let mut shake = ShakeGenerator::new(&s.request_iv);
    let padding = shake.next_padding();
    let len = shake.encode(3);
    let mut sealer = ChunkCrypter::new(SecurityType::Aes128Gcm, &s.response_key, &s.request_key, &s.request_iv);
    let sealed = sealer.seal(b"abc");
    let (frame, consumed) = w.pack_chunk(b"abc");
    assert_eq!(consumed, 3);
    assert_eq!(&frame[..2], &len.to_be_bytes());
    assert_eq!(&frame[2..2 + sealed.len()], &sealed[..]);
    assert_eq!(frame.len(), 2 + 3 + 16 + padding);
    let big = vec![0u8; 20000];
    let (_, c2) = w.pack_chunk(&big);
    assert_eq!(c2, 16320);
}

#[test]
fn chunk_reader_opens_a_chunk() {
    let u = UserId::new(uuid());
    let s = ClientSession::from_parts(&u, &[1u8; 16], &[2u8; 16], 5, 77);
    let mut header = vec![77u8, 0, 0, 0];
    aes128_cfb_encrypt(&s.response_key, &s.response_iv, &mut header);
    let mut shake = ShakeGenerator::new(&s.response_iv);
    let padding = shake.next_padding();
    let mut sealer = ChunkCrypter::new(SecurityType::Chacha20Poly1305, &s.response_key, &s.response_key, &s.response_iv);
    let sealed = sealer.seal(b"hello");
    let length = (sealed.len() + padding) as u16;
    let masked = shake.encode(length);
    let mut stream = header.clone();
    stream.extend_from_slice(&masked.to_be_bytes());
    stream.extend_from_slice(&sealed);
    stream.extend(std::iter::repeat(0u8).take(padding));

    let mut r = ChunkReader::new(s.clone(), SecurityType::Chacha20Poly1305);
    assert!(matches!(r.step(8), ReadAction::Fill(4)));
    r.fill(&stream);
    assert!(matches!(r.step(3), ReadAction::Fill(4)));
    assert!(matches!(r.step(3), ReadAction::Continue));
    assert!(matches!(r.step(3), ReadAction::Continue));
    match &r.state {
        ReaderState::ConsumeData { buf } => assert_eq!(buf, &b"hello".to_vec()),
        _ => panic!("expected the opened chunk"),
    }
    r.fill(b"xy");
    assert!(matches!(r.step(3), ReadAction::Output(o) if o.is_empty()));
    match &r.state {
        ReaderState::ConsumeData { buf } => assert_eq!(buf, &b"helloxy".to_vec()),
        _ => panic!("expected the held data"),
    }
    assert!(r.read_buf.is_empty());
    assert!(matches!(r.step(3), ReadAction::Continue));
    assert!(matches!(r.state, ReaderState::ReadLength));

    let mut bad = ChunkReader::new(s.clone(), SecurityType::Chacha20Poly1305);
    bad.fill(&[0, 0, 0, 0]);
    assert!(matches!(bad.step(1), ReadAction::Fail(ReadError::Header(_))));
}

#[test]
fn processor_resolves_security_and_accounts() {
    let p = ClientProcessor::new(ClientConfig { user_id: uuid(), alter_id: 1, security: SecurityType::Auto });
    assert_eq!(p.security, SecurityType::Aes128Gcm);
    assert_eq!(p.accounts.len(), 2);
    assert_eq!(p.accounts[1].uuid(), uuid());
    assert_eq!(SecurityType::default(), SecurityType::Aes128Gcm);
    assert_eq!(SecurityType::for_target(false), SecurityType::Chacha20Poly1305);
    let (header, reader, _writer) = p.start(&conn(Some(80))).unwrap();
    assert!(header.len() > 16);
    assert_eq!(&header[..16], &reader.session.auth_info[..]);
}
