//! The Shadowsocks AEAD ciphers (AES-GCM): key derivation and salts.
use vstd::prelude::*;
use vstd::utf8::encode_utf8;
use crate::crypto::{evp_bytes_to_key, random_bytes, spec_evp_bytes_to_key};

verus! {

/// The AEAD cipher methods.
#[derive(Debug, Clone, Copy, PartialEq, Eq, Structural)]
pub enum SsAeadCipherKind {
    Aes128Gcm,
    Aes256Gcm,
}

/// The AEAD algorithms of the crypto layer.
#[derive(Debug, Clone, Copy, PartialEq, Eq, Structural)]
pub enum AeadCipherKind {
    Aes128Gcm,
    Aes256Gcm,
    Chacha20Poly1305,
}

impl AeadCipherKind {
    pub open spec fn spec_key_len(self) -> nat {
        match self {
            AeadCipherKind::Aes128Gcm => 16,
            _ => 32,
        }
    }

    /// The key length, in bytes.
    pub fn key_len(&self) -> (r: usize)
        ensures
            r == self.spec_key_len(),
    {
        match self {
            AeadCipherKind::Aes128Gcm => 16,
            _ => 32,
        }
    }

    /// The nonce length, in bytes.
    pub fn iv_len(&self) -> (r: usize)
        ensures
            r == 12,
    {
        12
    }

    /// The tag length, in bytes.
    pub fn tag_len(&self) -> (r: usize)
        ensures
            r == 16,
    {
        16
    }
}

impl SsAeadCipherKind {
    pub open spec fn spec_into(self) -> AeadCipherKind {
        match self {
            SsAeadCipherKind::Aes128Gcm => AeadCipherKind::Aes128Gcm,
            SsAeadCipherKind::Aes256Gcm => AeadCipherKind::Aes256Gcm,
        }
    }

    /// The algorithm of the crypto layer.
    pub fn into_kind(self) -> (r: AeadCipherKind)
        ensures
            r == self.spec_into(),
    {
        match self {
            SsAeadCipherKind::Aes128Gcm => AeadCipherKind::Aes128Gcm,
            SsAeadCipherKind::Aes256Gcm => AeadCipherKind::Aes256Gcm,
        }
    }

    /// The master key: `EVP_BytesToKey` with MD5 over the password.
    pub fn derive_key(&self, password: &str) -> (r: Vec<u8>)
        ensures
            r@ == spec_evp_bytes_to_key(encode_utf8(password@), self.spec_into().spec_key_len()),
    {
        let kind = (*self).into_kind();
        evp_bytes_to_key(password.as_bytes(), kind.key_len())
    }

    /// A random salt of the algorithm's IV length.
    pub fn generate_salt(&self) -> (r: Vec<u8>)
        ensures
            r@.len() == 12,
    {
        let kind = (*self).into_kind();
        random_bytes(kind.iv_len())
    }
}

} // verus!
