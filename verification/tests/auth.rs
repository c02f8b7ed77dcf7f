use comet::crypto::HashKind;
use comet::processor::shadowsocks::auth::{AuthAes128ClientStream, AuthDeframer, SsrIds};

#[test]
fn packed_chunks_deframe_to_the_data() {
    let mut s = AuthAes128ClientStream::new(vec![1; 16], vec![2; 32], HashKind::Md5, vec![3; 16], Some(7));
    let data: Vec<u8> = (0..5000u32).map(|x| (x % 251) as u8).collect();
    let frames = s.pack_data(&data);
    assert_eq!(frames.len(), 3);
    assert_eq!(s.write_chunk_id, 3);
    let mut d = AuthDeframer::new();
    let mut out = Vec::new();
    for f in &frames {
        assert!(d.accepts(f));
        out.extend_from_slice(&d.feed(f));
    }
    assert_eq!(out, data);
}

#[test]
fn deframer_refuses_a_bad_header() {
    let d = AuthDeframer::new();
    assert!(!d.accepts(&[0, 0, 0, 0, 0, 0, 0]));
}

#[test]
fn connection_ids_count_up() {
    let mut ids = SsrIds::new();
    let (c1, n1) = ids.new_connection();
    let (c2, n2) = ids.new_connection();
    assert_eq!(c1, c2);
    assert_eq!(n2, n1 + 1);
}
