use comet::crypto::{aes_encrypt_block, base64_decode_standard, base64_encode_standard, sign_bytes, HashKind};
use comet::processor::shadowsocks::parse_subscription;

fn seq(n: u8) -> Vec<u8> {
    (0..n).collect()
}

#[test]
fn aes_block_vectors() {
    let plain = [0x00u8, 0x11, 0x22, 0x33, 0x44, 0x55, 0x66, 0x77, 0x88, 0x99, 0xaa, 0xbb, 0xcc, 0xdd, 0xee, 0xff];
    assert_eq!(
        aes_encrypt_block(&seq(16), &plain),
        vec![0x69, 0xc4, 0xe0, 0xd8, 0x6a, 0x7b, 0x04, 0x30, 0xd8, 0xcd, 0xb7, 0x80, 0x70, 0xb4, 0xc5, 0x5a]
    );
    assert_eq!(
        aes_encrypt_block(&seq(24), &plain),
        vec![0xdd, 0xa9, 0x7c, 0xa4, 0x86, 0x4c, 0xdf, 0xe0, 0x6e, 0xaf, 0x70, 0xa0, 0xec, 0x0d, 0x71, 0x91]
    );
    assert_eq!(
        aes_encrypt_block(&seq(32), &plain),
        vec![0x8e, 0xa2, 0xb7, 0xca, 0x51, 0x67, 0x45, 0xbf, 0xea, 0xfc, 0x49, 0x90, 0x4b, 0x49, 0x60, 0x89]
    );
}

#[test]
fn hmac_sha1_vector() {
    assert_eq!(
        sign_bytes(HashKind::Sha1, b"key", b"data"),
        vec![16, 65, 82, 197, 191, 220, 160, 123, 198, 51, 238, 189, 70, 25, 159, 2, 85, 201, 244, 157]
    );
    assert_eq!(sign_bytes(HashKind::Md5, b"key", b"data").len(), 16);
}

#[test]
fn base64_standard() {
    assert_eq!(base64_encode_standard(b"hello"), b"aGVsbG8=".to_vec());
    assert_eq!(base64_decode_standard(b"aGVsbG8="), Some(b"hello".to_vec()));
    assert_eq!(base64_decode_standard(b"*"), None);
}

#[test]
fn subscription_of_two_servers() {
    let content = b"c3NyOi8vTVRJM0xqQXVNQzR4T2pnek9EZzZiM0pwWjJsdU9tRmxjeTB5TlRZdFkyWmlPbkJzWVdsdU9tTkhSbnBqTTJSMlkyMVJMejl5WlcxaGNtdHpQV1JIVm5wa1FRPT0Kc3NyOi8vTVRJM0xqQXVNQzR4T2pnek9EZzZiM0pwWjJsdU9tRmxjeTB5TlRZdFkyWmlPbkJzWVdsdU9tTkhSbnBqTTJSMlkyMVJMejl5WlcxaGNtdHpQV1JIVm5wa1FRPT0=";
    let items = parse_subscription(content).unwrap();
    assert_eq!(items.len(), 2);
    assert_eq!(items[1].dest.port, Some(8388));
    assert!(parse_subscription(b"!!").is_err());
}
