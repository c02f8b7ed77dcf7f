//! The VMess chunk primitives: the SHAKE128 stream that masks lengths and
//! picks padding, the AEAD nonce sequence, and the ChaCha20-Poly1305 key.
use vstd::prelude::*;
use sha3::digest::{ExtendableOutputDirty, Update, XofReader};
use crate::bytes::copy_range;
use crate::crypto::{md5, md5_digest};

verus! {

#[verifier::external_type_specification]
#[verifier::external_body]
pub struct ExSha3XofReader(sha3::Sha3XofReader);

/// Byte `i` of the SHAKE128 output stream over `data`.
pub uninterp spec fn shake128_byte(data: Seq<u8>, i: int) -> u8;

/// What a SHAKE128 reader holds: the data it was absorbed from, and how
/// many output bytes it has handed out.
pub uninterp spec fn xof_reader_state(r: sha3::Sha3XofReader) -> (Seq<u8>, int);

/// `Shake128::default`, `update(data)`, `finalize_xof_dirty`: a reader at the
/// start of the output stream of `data`.
#[verifier::external_body]
fn shake128_reader(data: &[u8]) -> (r: sha3::Sha3XofReader)
    ensures
        xof_reader_state(r) == (data@, 0int),
{
    let mut shake = sha3::Shake128::default();
    shake.update(data);
    shake.finalize_xof_dirty()
}

/// `XofReader::read` into two bytes: the next two bytes of the stream.
#[verifier::external_body]
fn xof_read_pair(r: &mut sha3::Sha3XofReader) -> (b: (u8, u8))
    ensures
        xof_reader_state(*final(r)).0 == xof_reader_state(*old(r)).0,
        xof_reader_state(*final(r)).1 == xof_reader_state(*old(r)).1 + 2,
        b.0 == shake128_byte(xof_reader_state(*old(r)).0, xof_reader_state(*old(r)).1),
        b.1 == shake128_byte(xof_reader_state(*old(r)).0, xof_reader_state(*old(r)).1 + 1),
{
    let mut buf = [0u8; 2];
    r.read(&mut buf);
    (buf[0], buf[1])
}

/// The big-endian number of stream bytes `pos` and `pos + 1`.
pub open spec fn shake_word(data: Seq<u8>, pos: int) -> u16 {
    (shake128_byte(data, pos) as int * 256 + shake128_byte(data, pos + 1) as int) as u16
}

/// The generator of length masks and padding lengths of one direction.
pub struct ShakeGenerator {
    reader: sha3::Sha3XofReader,
}

impl ShakeGenerator {
    /// The data the stream comes from.
    pub closed spec fn source(&self) -> Seq<u8> {
        xof_reader_state(self.reader).0
    }

    /// How many stream bytes have been used.
    pub closed spec fn position(&self) -> int {
        xof_reader_state(self.reader).1
    }

    /// A generator over the SHAKE128 stream of `nonce`.
    pub fn new(nonce: &[u8]) -> (r: Self)
        ensures
            r.source() == nonce@,
            r.position() == 0,
    {
        ShakeGenerator { reader: shake128_reader(nonce) }
    }

    /// The next two stream bytes, big-endian.
    fn next(&mut self) -> (r: u16)
        ensures
            final(self).source() == old(self).source(),
            final(self).position() == old(self).position() + 2,
            r == shake_word(old(self).source(), old(self).position()),
    {
        let (a, b) = xof_read_pair(&mut self.reader);
        proof {
            assert(a as int * 256 + b as int <= 0xffff) by (nonlinear_arith)
                requires a < 256, b < 256;
        }
        (a as u16) * 256 + b as u16
    }

    /// Masks a length with the next stream word.
    pub fn encode(&mut self, len: u16) -> (r: u16)
        ensures
            final(self).source() == old(self).source(),
            final(self).position() == old(self).position() + 2,
            r == shake_word(old(self).source(), old(self).position()) ^ len,
    {
        let w = self.next();
        w ^ len
    }

    /// The next padding length, below 64.
    pub fn next_padding(&mut self) -> (r: usize)
        ensures
            final(self).source() == old(self).source(),
            final(self).position() == old(self).position() + 2,
            r == shake_word(old(self).source(), old(self).position()) % 64,
    {
        let w = self.next();
        (w % 64) as usize
    }

    /// The largest padding length is below this.
    pub fn max_padding(&self) -> (r: usize)
        ensures
            r == 64,
    {
        64
    }
}

/// The AEAD nonces of one direction: a 16-bit big-endian counter followed
/// by ten fixed bytes.
pub struct VmessNonceSeq {
    pub counter: u16,
    pub tail: Vec<u8>,
}

/// The nonce for counter value `c` before ten fixed bytes.
pub open spec fn vmess_nonce(c: u16, tail: Seq<u8>) -> Seq<u8> {
    seq![(c / 256) as u8, (c % 256) as u8] + tail
}

impl VmessNonceSeq {
    pub open spec fn wf(&self) -> bool {
        self.tail@.len() == 10
    }

    /// A sequence starting at counter zero over the ten given bytes.
    pub fn new(nonce: &[u8]) -> (r: Self)
        requires
            nonce@.len() == 10,
        ensures
            r.wf(),
            r.counter == 0,
            r.tail@ == nonce@,
    {
        let tail = copy_range(nonce, 0, nonce.len());
        assert(nonce@.subrange(0, 10) == nonce@);
        VmessNonceSeq { counter: 0, tail }
    }

    /// The next nonce; the counter steps on, wrapping at 2^16.
    pub fn advance(&mut self) -> (r: Option<Vec<u8>>)
        requires
            old(self).wf(),
        ensures
            final(self).wf(),
            final(self).tail@ == old(self).tail@,
            final(self).counter == (old(self).counter + 1) % 0x1_0000,
            r matches Some(n) && n@ == vmess_nonce(old(self).counter, old(self).tail@),
    {
        let c = self.counter;
        self.counter = c.wrapping_add(1);
        let mut n: Vec<u8> = Vec::new();
        n.push((c / 256) as u8);
        n.push((c % 256) as u8);
        let mut i: usize = 0;
        proof {
            assert(self.tail@.take(0) =~= Seq::<u8>::empty());
        }
        while i < 10
            invariant
                i <= 10,
                self.tail@.len() == 10,
                n@ == seq![(c / 256) as u8, (c % 256) as u8] + self.tail@.take(i as int),
            decreases 10 - i,
        {
            n.push(self.tail[i]);
            assert(self.tail@.take(i + 1) == self.tail@.take(i as int).push(self.tail@[i as int]));
            i = i + 1;
        }
        assert(self.tail@.take(10) == self.tail@);
        Some(n)
    }
}

/// The ChaCha20-Poly1305 key made from a 16-byte key: its MD5, then the MD5
/// of that.
pub open spec fn spec_chacha20poly1305_key(key: Seq<u8>) -> Seq<u8> {
    md5_digest(key) + md5_digest(md5_digest(key))
}

/// Stretches a key to the 32 bytes ChaCha20-Poly1305 takes.
pub fn generate_chacha20poly1305_key(key: &[u8]) -> (r: Vec<u8>)
    ensures
        r@ == spec_chacha20poly1305_key(key@),
        r@.len() == 32,
{
    let mut k1 = md5(key);
    let mut k2 = md5(k1.as_slice());
    k1.append(&mut k2);
    k1
}

/// Distinct counter values give distinct nonces: a nonce does not repeat
/// within 2^16 chunks of one direction.
pub proof fn lemma_vmess_nonce_distinct(c1: u16, c2: u16, tail: Seq<u8>)
    requires
        c1 != c2,
    ensures
        vmess_nonce(c1, tail) != vmess_nonce(c2, tail),
{
    let a = vmess_nonce(c1, tail);
    let b = vmess_nonce(c2, tail);
    assert(a[0] == (c1 / 256) as u8 && a[1] == (c1 % 256) as u8);
    assert(b[0] == (c2 / 256) as u8 && b[1] == (c2 % 256) as u8);
    if a == b {
        assert(c1 == (c1 / 256) * 256 + c1 % 256);
        assert(c2 == (c2 / 256) * 256 + c2 % 256);
    }
}

} // verus!
