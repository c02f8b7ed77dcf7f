//! The cryptographic and random primitives the protocols are built from.
//!
//! Digests, MACs and ciphers are computed by the RustCrypto crates; their
//! results are named by the specification functions below, so that the
//! protocol code can state exactly which bytes go where. Randomness comes
//! from `xorshift` (fast, non-cryptographic) and `rand` (for key material).
use vstd::prelude::*;
use aes::cipher::generic_array::GenericArray;
use aes::cipher::{AsyncStreamCipher, BlockEncrypt, KeyInit, KeyIvInit};
use hmac::Mac;
use md5::Digest;
use rand::RngCore;
use xorshift::Rng;

verus! {

/// The digest algorithms the protocols use for hashing and signing.
#[derive(Debug, Clone, Copy, PartialEq, Eq, Structural)]
pub enum HashKind {
    Md5,
    Sha1,
}

/// The MD5 digest of `data`.
pub uninterp spec fn md5_digest(data: Seq<u8>) -> Seq<u8>;

/// The SHA-1 digest of `data`.
pub uninterp spec fn sha1_digest(data: Seq<u8>) -> Seq<u8>;

/// The SHA-224 digest of `data`.
pub uninterp spec fn sha224_digest(data: Seq<u8>) -> Seq<u8>;

/// HMAC-MD5 of `data` under `key`.
pub uninterp spec fn hmac_md5_tag(key: Seq<u8>, data: Seq<u8>) -> Seq<u8>;

/// HMAC-SHA1 of `data` under `key`.
pub uninterp spec fn hmac_sha1_tag(key: Seq<u8>, data: Seq<u8>) -> Seq<u8>;

/// One AES-128 block encryption of `block` under `key`.
pub uninterp spec fn aes128_block(key: Seq<u8>, block: Seq<u8>) -> Seq<u8>;

/// The standard (padded) Base64 text of `data`, as bytes.
pub uninterp spec fn base64_standard_text(data: Seq<u8>) -> Seq<u8>;

/// The bytes that URL-safe Base64 text `text` decodes to, if it is valid.
pub uninterp spec fn base64_url_safe_decoding(text: Seq<u8>) -> Option<Seq<u8>>;

/// The bytes that standard Base64 text `text` decodes to, if it is valid.
pub uninterp spec fn base64_standard_decoding(text: Seq<u8>) -> Option<Seq<u8>>;

/// A digest with the given algorithm.
pub open spec fn digest(kind: HashKind, data: Seq<u8>) -> Seq<u8> {
    match kind {
        HashKind::Md5 => md5_digest(data),
        HashKind::Sha1 => sha1_digest(data),
    }
}

/// An HMAC with the given algorithm.
pub open spec fn sign(kind: HashKind, key: Seq<u8>, data: Seq<u8>) -> Seq<u8> {
    match kind {
        HashKind::Md5 => hmac_md5_tag(key, data),
        HashKind::Sha1 => hmac_sha1_tag(key, data),
    }
}

/// The length of a digest (and of an HMAC) of the given algorithm.
pub open spec fn digest_len(kind: HashKind) -> nat {
    match kind {
        HashKind::Md5 => 16,
        HashKind::Sha1 => 20,
    }
}

/// `md5::Md5::digest`: MD5 of `data`, 16 bytes.
#[verifier::external_body]
pub fn md5(data: &[u8]) -> (r: Vec<u8>)
    ensures
        r@ == md5_digest(data@),
        r@.len() == 16,
{
    md5::Md5::digest(data).to_vec()
}

/// `sha1::Sha1::digest`: SHA-1 of `data`, 20 bytes.
#[verifier::external_body]
pub fn sha1(data: &[u8]) -> (r: Vec<u8>)
    ensures
        r@ == sha1_digest(data@),
        r@.len() == 20,
{
    sha1::Sha1::digest(data).to_vec()
}

/// `sha2::Sha224::digest`: SHA-224 of `data`, 28 bytes.
#[verifier::external_body]
pub fn sha224(data: &[u8]) -> (r: Vec<u8>)
    ensures
        r@ == sha224_digest(data@),
        r@.len() == 28,
{
    sha2::Sha224::digest(data).to_vec()
}

/// `hmac::Hmac<Md5>`: the tag of `data` under `key`, 16 bytes. HMAC takes
/// keys of any length, so the key setup does not fail.
#[verifier::external_body]
fn hmac_md5(key: &[u8], data: &[u8]) -> (r: Vec<u8>)
    ensures
        r@ == hmac_md5_tag(key@, data@),
        r@.len() == 16,
{
    match <hmac::Hmac<md5::Md5> as Mac>::new_from_slice(key) {
        Ok(mut mac) => {
            mac.update(data);
            mac.finalize().into_bytes().to_vec()
        },
        Err(_) => Vec::new(),
    }
}

/// `hmac::Hmac<Sha1>`: the tag of `data` under `key`, 20 bytes. HMAC takes
/// keys of any length, so the key setup does not fail.
#[verifier::external_body]
fn hmac_sha1(key: &[u8], data: &[u8]) -> (r: Vec<u8>)
    ensures
        r@ == hmac_sha1_tag(key@, data@),
        r@.len() == 20,
{
    match <hmac::Hmac<sha1::Sha1> as Mac>::new_from_slice(key) {
        Ok(mut mac) => {
            mac.update(data);
            mac.finalize().into_bytes().to_vec()
        },
        Err(_) => Vec::new(),
    }
}

/// Hashes `data` with the given algorithm.
pub fn hash_bytes(kind: HashKind, data: &[u8]) -> (r: Vec<u8>)
    ensures
        r@ == digest(kind, data@),
        r@.len() == digest_len(kind),
{
    match kind {
        HashKind::Md5 => md5(data),
        HashKind::Sha1 => sha1(data),
    }
}

/// Signs `data` under `key` with HMAC over the given algorithm.
pub fn sign_bytes(kind: HashKind, key: &[u8], data: &[u8]) -> (r: Vec<u8>)
    ensures
        r@ == sign(kind, key@, data@),
        r@.len() == digest_len(kind),
{
    match kind {
        HashKind::Md5 => hmac_md5(key, data),
        HashKind::Sha1 => hmac_sha1(key, data),
    }
}

/// `aes::Aes128::encrypt_block`: encrypts one 16-byte block under a 16-byte
/// key. AES-128-CBC with an all-zero IV on a single block, without padding,
/// gives the same 16 bytes.
#[verifier::external_body]
pub fn aes128_encrypt_block(key: &[u8], block: &[u8]) -> (r: Vec<u8>)
    requires
        key@.len() == 16,
        block@.len() == 16,
    ensures
        r@ == aes128_block(key@, block@),
        r@.len() == 16,
{
    let cipher = aes::Aes128::new(GenericArray::from_slice(key));
    let mut b = GenericArray::clone_from_slice(block);
    cipher.encrypt_block(&mut b);
    b.to_vec()
}

/// AES-192 encryption of one 16-byte block under a 24-byte key.
pub uninterp spec fn aes192_block(key: Seq<u8>, block: Seq<u8>) -> Seq<u8>;

/// AES-256 encryption of one 16-byte block under a 32-byte key.
pub uninterp spec fn aes256_block(key: Seq<u8>, block: Seq<u8>) -> Seq<u8>;

/// `aes::Aes192::encrypt_block`: encrypts one 16-byte block under a 24-byte
/// key.
#[verifier::external_body]
pub fn aes192_encrypt_block(key: &[u8], block: &[u8]) -> (r: Vec<u8>)
    requires
        key@.len() == 24,
        block@.len() == 16,
    ensures
        r@ == aes192_block(key@, block@),
        r@.len() == 16,
{
    let cipher = aes::Aes192::new(GenericArray::from_slice(key));
    let mut b = GenericArray::clone_from_slice(block);
    cipher.encrypt_block(&mut b);
    b.to_vec()
}

/// `aes::Aes256::encrypt_block`: encrypts one 16-byte block under a 32-byte
/// key.
#[verifier::external_body]
pub fn aes256_encrypt_block(key: &[u8], block: &[u8]) -> (r: Vec<u8>)
    requires
        key@.len() == 32,
        block@.len() == 16,
    ensures
        r@ == aes256_block(key@, block@),
        r@.len() == 16,
{
    let cipher = aes::Aes256::new(GenericArray::from_slice(key));
    let mut b = GenericArray::clone_from_slice(block);
    cipher.encrypt_block(&mut b);
    b.to_vec()
}

/// AES encryption of one block, the variant chosen by the key's length
/// (16, 24 or 32 bytes).
pub open spec fn aes_block(key: Seq<u8>, block: Seq<u8>) -> Seq<u8> {
    if key.len() == 16 {
        aes128_block(key, block)
    } else if key.len() == 24 {
        aes192_block(key, block)
    } else {
        aes256_block(key, block)
    }
}

/// Encrypts one block with the AES variant of the key's length.
pub fn aes_encrypt_block(key: &[u8], block: &[u8]) -> (r: Vec<u8>)
    requires
        key@.len() == 16 || key@.len() == 24 || key@.len() == 32,
        block@.len() == 16,
    ensures
        r@ == aes_block(key@, block@),
        r@.len() == 16,
{
    if key.len() == 16 {
        aes128_encrypt_block(key, block)
    } else if key.len() == 24 {
        aes192_encrypt_block(key, block)
    } else {
        aes256_encrypt_block(key, block)
    }
}

/// `cfb_mode::Encryptor<Aes128>`: encrypts `data` in place with AES-128 in
/// CFB mode with full-block feedback under a 16-byte key and IV, a short
/// last block taking the first bytes of its key stream block; this is
/// `cfb_encrypted` over the AES block function.
#[verifier::external_body]
pub fn aes128_cfb_encrypt(key: &[u8], iv: &[u8], data: &mut Vec<u8>)
    requires
        key@.len() == 16,
        iv@.len() == 16,
    ensures
        final(data)@ == crate::cfb::cfb_encrypted(key@, iv@, old(data)@),
        final(data)@.len() == old(data)@.len(),
{
    cfb_mode::Encryptor::<aes::Aes128>::new(key.into(), iv.into()).encrypt(data.as_mut_slice());
}

/// `cfb_mode::Decryptor<Aes128>`: decrypts `data` in place with AES-128 in
/// CFB mode with full-block feedback under a 16-byte key and IV; this is
/// `cfb_decrypted` over the AES block function.
#[verifier::external_body]
pub fn aes128_cfb_decrypt(key: &[u8], iv: &[u8], data: &mut Vec<u8>)
    requires
        key@.len() == 16,
        iv@.len() == 16,
    ensures
        final(data)@ == crate::cfb::cfb_decrypted(key@, iv@, old(data)@),
        final(data)@.len() == old(data)@.len(),
{
    cfb_mode::Decryptor::<aes::Aes128>::new(key.into(), iv.into()).decrypt(data.as_mut_slice());
}

/// The AES-128-GCM sealing of `plaintext` under `key` and `nonce`, with no
/// associated data: the ciphertext followed by the 16-byte tag.
pub uninterp spec fn aes128_gcm_sealed(key: Seq<u8>, nonce: Seq<u8>, plaintext: Seq<u8>) -> Seq<u8>;

/// What AES-128-GCM opening of `sealed` gives: the plaintext, or `None`
/// where the tag does not verify.
pub uninterp spec fn aes128_gcm_opened(key: Seq<u8>, nonce: Seq<u8>, sealed: Seq<u8>) -> Option<Seq<u8>>;

/// The ChaCha20-Poly1305 sealing of `plaintext` under `key` and `nonce`,
/// with no associated data: the ciphertext followed by the 16-byte tag.
pub uninterp spec fn chacha20_poly1305_sealed(key: Seq<u8>, nonce: Seq<u8>, plaintext: Seq<u8>) -> Seq<u8>;

/// What ChaCha20-Poly1305 opening of `sealed` gives: the plaintext, or
/// `None` where the tag does not verify.
pub uninterp spec fn chacha20_poly1305_opened(key: Seq<u8>, nonce: Seq<u8>, sealed: Seq<u8>) -> Option<Seq<u8>>;

/// `aes_gcm::Aes128Gcm::encrypt`: seals `plaintext`; the tag of 16 bytes
/// follows the ciphertext, which is as long as the plaintext. The crate
/// refuses only plaintexts over 2^36 bytes, which `requires` leaves out.
#[verifier::external_body]
pub fn aes128_gcm_seal(key: &[u8], nonce: &[u8], plaintext: &[u8]) -> (r: Vec<u8>)
    requires
        key@.len() == 16,
        nonce@.len() == 12,
        plaintext@.len() <= 0xffff_ffff,
    ensures
        r@ == aes128_gcm_sealed(key@, nonce@, plaintext@),
        r@.len() == plaintext@.len() + 16,
{
    aes_gcm::aead::Aead::encrypt(&aes_gcm::Aes128Gcm::new(GenericArray::from_slice(key)), GenericArray::from_slice(nonce), plaintext)
        .unwrap_or_default()
}

/// `aes_gcm::Aes128Gcm::decrypt`: opens `sealed` (ciphertext and 16-byte
/// tag), or `None` where it is shorter than a tag or the tag does not verify.
#[verifier::external_body]
pub fn aes128_gcm_open(key: &[u8], nonce: &[u8], sealed: &[u8]) -> (r: Option<Vec<u8>>)
    requires
        key@.len() == 16,
        nonce@.len() == 12,
    ensures
        match r {
            Some(p) => aes128_gcm_opened(key@, nonce@, sealed@) == Some(p@) && p@.len() + 16 == sealed@.len(),
            None => aes128_gcm_opened(key@, nonce@, sealed@) is None,
        },
{
    aes_gcm::aead::Aead::decrypt(&aes_gcm::Aes128Gcm::new(GenericArray::from_slice(key)), GenericArray::from_slice(nonce), sealed).ok()
}

/// `chacha20poly1305::ChaCha20Poly1305::encrypt`: seals `plaintext`; the
/// tag of 16 bytes follows the ciphertext, which is as long as the
/// plaintext. The crate refuses only plaintexts of 2^32 - 1 blocks of 64
/// bytes or more, which `requires` leaves out.
#[verifier::external_body]
pub fn chacha20_poly1305_seal(key: &[u8], nonce: &[u8], plaintext: &[u8]) -> (r: Vec<u8>)
    requires
        key@.len() == 32,
        nonce@.len() == 12,
        plaintext@.len() <= 0xffff_ffff,
    ensures
        r@ == chacha20_poly1305_sealed(key@, nonce@, plaintext@),
        r@.len() == plaintext@.len() + 16,
{
    chacha20poly1305::aead::Aead::encrypt(&chacha20poly1305::ChaCha20Poly1305::new(GenericArray::from_slice(key)), GenericArray::from_slice(nonce), plaintext)
        .unwrap_or_default()
}

/// `chacha20poly1305::ChaCha20Poly1305::decrypt`: opens `sealed`
/// (ciphertext and 16-byte tag), or `None` where it is shorter than a tag
/// or the tag does not verify.
#[verifier::external_body]
pub fn chacha20_poly1305_open(key: &[u8], nonce: &[u8], sealed: &[u8]) -> (r: Option<Vec<u8>>)
    requires
        key@.len() == 32,
        nonce@.len() == 12,
    ensures
        match r {
            Some(p) => chacha20_poly1305_opened(key@, nonce@, sealed@) == Some(p@) && p@.len() + 16 == sealed@.len(),
            None => chacha20_poly1305_opened(key@, nonce@, sealed@) is None,
        },
{
    chacha20poly1305::aead::Aead::decrypt(&chacha20poly1305::ChaCha20Poly1305::new(GenericArray::from_slice(key)), GenericArray::from_slice(nonce), sealed).ok()
}

/// `base64::encode_config(.., STANDARD)`: the padded Base64 text of `data`.
#[verifier::external_body]
pub fn base64_encode_standard(data: &[u8]) -> (r: Vec<u8>)
    ensures
        r@ == base64_standard_text(data@),
{
    base64::encode_config(data, base64::STANDARD).into_bytes()
}

/// `base64::decode_config(.., URL_SAFE)`: the bytes that `text` decodes to,
/// or `None` where the crate reports an error.
#[verifier::external_body]
pub fn base64_decode_url_safe(text: &[u8]) -> (r: Option<Vec<u8>>)
    ensures
        r matches Some(v) ==> base64_url_safe_decoding(text@) == Some(v@),
        r is None ==> base64_url_safe_decoding(text@) is None,
{
    base64::decode_config(text, base64::URL_SAFE).ok()
}

/// `base64::decode`: the bytes that standard Base64 `text` decodes to, or
/// `None` where the crate reports an error.
#[verifier::external_body]
pub fn base64_decode_standard(text: &[u8]) -> (r: Option<Vec<u8>>)
    ensures
        r matches Some(v) ==> base64_standard_decoding(text@) == Some(v@),
        r is None ==> base64_standard_decoding(text@) is None,
{
    base64::decode(text).ok()
}

/// The FNV-1a 32-bit hash: start from the offset basis `0x811c9dc5`, and for
/// each byte xor it in, then multiply by the prime `0x01000193` modulo 2^32.
pub open spec fn fnv1a32(data: Seq<u8>) -> u32
    decreases data.len(),
{
    if data.len() == 0 {
        0x811c9dc5
    } else {
        ((fnv1a32(data.drop_last()) ^ (data.last() as u32)) as int * 0x01000193 % 0x1_0000_0000) as u32
    }
}

/// `lz_fnv::Fnv1a::<u32>`: the FNV-1a 32-bit hash of `data`.
#[verifier::external_body]
pub fn fnv1a32_hash(data: &[u8]) -> (r: u32)
    ensures
        r == fnv1a32(data@),
{
    let mut hasher = lz_fnv::Fnv1a::<u32>::new();
    lz_fnv::FnvHasher::write(&mut hasher, data);
    lz_fnv::FnvHasher::finish(&hasher)
}

/// `xorshift::Xorshift128::gen_range(0, n)`: a pseudo-random number below
/// `n`. Nothing more is stated of it.
#[verifier::external_body]
pub fn random_below(n: u32) -> (r: u32)
    requires
        n > 0,
    ensures
        r < n,
{
    xorshift::thread_rng::<xorshift::Xorshift128>().gen_range(0, n)
}

/// `xorshift::Xorshift128::gen::<u32>`: a pseudo-random 32-bit number.
#[verifier::external_body]
pub fn random_u32() -> (r: u32) {
    xorshift::thread_rng::<xorshift::Xorshift128>().gen::<u32>()
}

/// `rand::RngCore::fill_bytes` on the thread generator: `n` random bytes.
#[verifier::external_body]
pub fn random_bytes(n: usize) -> (r: Vec<u8>)
    ensures
        r@.len() == n,
{
    let mut v = vec![0u8; n];
    rand::thread_rng().fill_bytes(&mut v);
    v
}

/// The hash chain of OpenSSL's `EVP_BytesToKey` with MD5, one round and no
/// salt: the first block is `MD5(data)`, each next one `MD5(previous ++ data)`.
pub open spec fn evp_block(data: Seq<u8>, i: nat) -> Seq<u8>
    decreases i,
{
    if i == 0 {
        md5_digest(data)
    } else {
        md5_digest(evp_block(data, (i - 1) as nat) + data)
    }
}

/// The first `k` blocks of the chain, one after another.
pub open spec fn evp_stream(data: Seq<u8>, k: nat) -> Seq<u8>
    decreases k,
{
    if k == 0 {
        Seq::empty()
    } else {
        evp_stream(data, (k - 1) as nat) + evp_block(data, (k - 1) as nat)
    }
}

/// `EVP_BytesToKey` with MD5: the first `key_len` bytes of the chain.
pub open spec fn spec_evp_bytes_to_key(data: Seq<u8>, key_len: nat) -> Seq<u8> {
    evp_stream(data, key_len / 16 + 1).take(key_len as int)
}

/// Derives a key of `key_len` bytes from a password, as OpenSSL's
/// `EVP_BytesToKey` does with MD5, one round and no salt.
pub fn evp_bytes_to_key(data: &[u8], key_len: usize) -> (r: Vec<u8>)
    requires
        key_len < 0x1000,
    ensures
        r@ == spec_evp_bytes_to_key(data@, key_len as nat),
        r@.len() == key_len,
{
    let blocks = key_len / 16 + 1;
    let mut stream: Vec<u8> = Vec::new();
    let mut prev = md5(data);
    let mut k: usize = 0;
    while k < blocks
        invariant
            blocks == key_len / 16 + 1,
            k <= blocks,
            stream@ == evp_stream(data@, k as nat),
            stream@.len() == 16 * k,
            prev@ == evp_block(data@, k as nat),
            prev@.len() == 16,
        decreases blocks - k,
    {
        push_all(&mut stream, prev.as_slice());
        let mut input: Vec<u8> = Vec::new();
        push_all(&mut input, prev.as_slice());
        push_all(&mut input, data);
        prev = md5(input.as_slice());
        k = k + 1;
    }
    let mut r: Vec<u8> = Vec::new();
    let mut i: usize = 0;
    while i < key_len
        invariant
            i <= key_len,
            key_len <= stream@.len(),
            r@ == stream@.take(i as int),
        decreases key_len - i,
    {
        r.push(stream[i]);
        i = i + 1;
        assert(r@ == stream@.take(i as int));
    }
    r
}

fn push_all(out: &mut Vec<u8>, src: &[u8])
    ensures
        final(out)@ == old(out)@ + src@,
{
    crate::bytes::push_slice(out, src);
}

} // verus!
