//! AES in CFB-128 mode as a stream: bytes are encrypted or decrypted as
//! they come, in pieces of any size, and the outcome does not depend on
//! how the stream is cut.
use vstd::prelude::*;
use crate::crypto::{aes_block, aes_encrypt_block};
use aes::cipher::generic_array::GenericArray;
use aes::cipher::KeyInit;

verus! {

/// The state of a CFB stream: the key, the register last encrypted (the
/// IV, then each full ciphertext block), how far into the block the stream
/// is, and the ciphertext of the block so far.
pub struct CfbState {
    pub key: Seq<u8>,
    pub reg: Seq<u8>,
    pub pos: nat,
    pub acc: Seq<u8>,
}

/// The state at the start of a stream.
pub open spec fn cfb_start(key: Seq<u8>, iv: Seq<u8>) -> CfbState {
    CfbState { key, reg: iv, pos: 0, acc: Seq::empty() }
}

/// One byte through the stream: it is XORed with the next key stream byte
/// (byte `pos` of the encrypted register); the ciphertext byte (the output
/// when encrypting, the input when decrypting) joins the block, and a full
/// block becomes the next register.
pub open spec fn cfb_step(st: CfbState, b: u8, decrypt: bool) -> (CfbState, u8) {
    let k = aes_block(st.key, st.reg)[st.pos as int];
    let out = b ^ k;
    let c = if decrypt { b } else { out };
    let acc = st.acc.push(c);
    if st.pos + 1 == 16 {
        (CfbState { key: st.key, reg: acc, pos: 0, acc: Seq::empty() }, out)
    } else {
        (CfbState { key: st.key, reg: st.reg, pos: st.pos + 1, acc }, out)
    }
}

/// The stream's output for `data` from state `st`, and the state after.
pub open spec fn cfb_run(st: CfbState, data: Seq<u8>, decrypt: bool) -> (CfbState, Seq<u8>)
    decreases data.len(),
{
    if data.len() == 0 {
        (st, Seq::empty())
    } else {
        let (s1, o) = cfb_run(st, data.drop_last(), decrypt);
        let (s2, b) = cfb_step(s1, data.last(), decrypt);
        (s2, o.push(b))
    }
}

/// AES-CFB-128 encryption of `data` under `key` and `iv`, in one piece.
pub open spec fn cfb_encrypted(key: Seq<u8>, iv: Seq<u8>, data: Seq<u8>) -> Seq<u8> {
    cfb_run(cfb_start(key, iv), data, false).1
}

/// AES-CFB-128 decryption of `data` under `key` and `iv`, in one piece.
pub open spec fn cfb_decrypted(key: Seq<u8>, iv: Seq<u8>, data: Seq<u8>) -> Seq<u8> {
    cfb_run(cfb_start(key, iv), data, true).1
}

/// Decryption under the same key and IV gives back what encryption made.
pub proof fn lemma_cfb_decrypts(key: Seq<u8>, iv: Seq<u8>, p: Seq<u8>)
    ensures
        cfb_decrypted(key, iv, cfb_encrypted(key, iv, p)) == p,
        cfb_encrypted(key, iv, p).len() == p.len(),
{
    lemma_cfb_roundtrip(cfb_start(key, iv), p);
}

/// The state is one that a stream reaches.
pub open spec fn cfb_wf(st: CfbState) -> bool {
    &&& (st.key.len() == 16 || st.key.len() == 24 || st.key.len() == 32)
    &&& st.reg.len() == 16
    &&& st.pos < 16
    &&& st.acc.len() == st.pos
}

/// Running a stream over `a` and then `b` is running it over `a + b`.
pub proof fn lemma_cfb_run_concat(st: CfbState, a: Seq<u8>, b: Seq<u8>, decrypt: bool)
    ensures
        cfb_run(st, a + b, decrypt) == ({
            let (s1, o1) = cfb_run(st, a, decrypt);
            let (s2, o2) = cfb_run(s1, b, decrypt);
            (s2, o1 + o2)
        }),
    decreases b.len(),
{
    if b.len() == 0 {
        assert(a + b == a);
        let (s1, o1) = cfb_run(st, a, decrypt);
        assert(o1 + Seq::<u8>::empty() == o1);
    } else {
        lemma_cfb_run_concat(st, a, b.drop_last(), decrypt);
        assert((a + b).drop_last() == a + b.drop_last());
        assert((a + b).last() == b.last());
        let (s1, o1) = cfb_run(st, a, decrypt);
        let (s2, o2) = cfb_run(s1, b.drop_last(), decrypt);
        let (s3, x) = cfb_step(s2, b.last(), decrypt);
        assert(o1 + o2.push(x) == (o1 + o2).push(x));
    }
}

/// What decrypting gives back what encrypting made, from the same state:
/// the plaintext, and the same state after.
pub proof fn lemma_cfb_roundtrip(st: CfbState, p: Seq<u8>)
    ensures
        ({
            let (se, c) = cfb_run(st, p, false);
            let (sd, q) = cfb_run(st, c, true);
            q == p && sd == se && c.len() == p.len()
        }),
    decreases p.len(),
{
    if p.len() > 0 {
        lemma_cfb_roundtrip(st, p.drop_last());
        let (se, c) = cfb_run(st, p.drop_last(), false);
        let (se2, x) = cfb_step(se, p.last(), false);
        let c_all = c.push(x);
        assert(c_all.drop_last() == c);
        assert(c_all.last() == x);
        let (sd2, y) = cfb_step(se, x, true);
        let k = aes_block(se.key, se.reg)[se.pos as int];
        let pl = p.last();
        assert((pl ^ k) ^ k == pl) by (bit_vector);
        assert(sd2 == se2);
        let (sd, q) = cfb_run(st, p.drop_last(), true);
        assert(p.drop_last().push(p.last()) == p);
    }
}

/// The pieces one after another.
pub open spec fn concat_pieces(ps: Seq<Seq<u8>>) -> Seq<u8>
    decreases ps.len(),
{
    if ps.len() == 0 { Seq::empty() } else { ps[0] + concat_pieces(ps.drop_first()) }
}

/// Running a stream over the pieces one at a time: the state after, and
/// the outputs one after another.
pub open spec fn cfb_pieces(st: CfbState, ps: Seq<Seq<u8>>, decrypt: bool) -> (CfbState, Seq<u8>)
    decreases ps.len(),
{
    if ps.len() == 0 {
        (st, Seq::empty())
    } else {
        let (s1, o1) = cfb_run(st, ps[0], decrypt);
        let (s2, o2) = cfb_pieces(s1, ps.drop_first(), decrypt);
        (s2, o1 + o2)
    }
}

/// However a stream is cut into pieces, running them one at a time is
/// running it whole.
pub proof fn lemma_cfb_pieces(st: CfbState, ps: Seq<Seq<u8>>, decrypt: bool)
    ensures
        cfb_pieces(st, ps, decrypt) == cfb_run(st, concat_pieces(ps), decrypt),
    decreases ps.len(),
{
    if ps.len() > 0 {
        let (s1, o1) = cfb_run(st, ps[0], decrypt);
        lemma_cfb_pieces(s1, ps.drop_first(), decrypt);
        lemma_cfb_run_concat(st, ps[0], concat_pieces(ps.drop_first()), decrypt);
    }
}

/// How `cfb_mode`'s buffered streams hold a state: one block whose first
/// `pos` bytes are the ciphertext of the current block so far, and whose
/// other bytes are the rest of that block's key stream (the encrypted
/// register).
pub open spec fn buf_state_matches(st: CfbState, ivs: Seq<u8>) -> bool {
    ivs == st.acc + aes_block(st.key, st.reg).skip(st.pos as int)
}

/// `cfb_mode::BufEncryptor<aes::Aes128>` resumed from the state `ivs`, `pos`
/// (`from_state`), `encrypt` on `data` in place, then `get_state`. Its block holds the
/// ciphertext of the current block so far, then the rest of the key stream
/// block; a full block is encrypted to give the next key stream block.
#[verifier::external_body]
fn aes128_cfb_stream_encrypt(key: &[u8], ivs: &[u8], pos: usize, data: &mut Vec<u8>) -> (r: (Vec<u8>, usize))
    requires
        key@.len() == 16,
        ivs@.len() == 16,
        pos < 16,
    ensures
        r.0@.len() == 16,
        r.1 < 16,
        forall|st: CfbState| st.key == key@ && st.pos == pos && cfb_wf(st) && #[trigger] buf_state_matches(st, ivs@) ==> ({
            let (st2, out) = cfb_run(st, old(data)@, false);
            final(data)@ == out && buf_state_matches(st2, r.0@) && r.1 == st2.pos
        }),
{
    let mut c = cfb_mode::BufEncryptor::<aes::Aes128>::from_state(aes::Aes128::new(GenericArray::from_slice(key)), GenericArray::from_slice(ivs), pos);
    c.encrypt(data.as_mut_slice());
    let (iv, p) = c.get_state();
    (iv.to_vec(), p)
}

/// `cfb_mode::BufDecryptor<aes::Aes128>` resumed from the state `ivs`, `pos`
/// (`from_state`), `decrypt` on `data` in place, then `get_state`. Its block holds the
/// ciphertext of the current block so far, then the rest of the key stream
/// block.
#[verifier::external_body]
fn aes128_cfb_stream_decrypt(key: &[u8], ivs: &[u8], pos: usize, data: &mut Vec<u8>) -> (r: (Vec<u8>, usize))
    requires
        key@.len() == 16,
        ivs@.len() == 16,
        pos < 16,
    ensures
        r.0@.len() == 16,
        r.1 < 16,
        forall|st: CfbState| st.key == key@ && st.pos == pos && cfb_wf(st) && #[trigger] buf_state_matches(st, ivs@) ==> ({
            let (st2, out) = cfb_run(st, old(data)@, true);
            final(data)@ == out && buf_state_matches(st2, r.0@) && r.1 == st2.pos
        }),
{
    let mut c = cfb_mode::BufDecryptor::<aes::Aes128>::from_state(aes::Aes128::new(GenericArray::from_slice(key)), GenericArray::from_slice(ivs), pos);
    c.decrypt(data.as_mut_slice());
    let (iv, p) = c.get_state();
    (iv.to_vec(), p)
}

/// `cfb_mode::BufEncryptor<aes::Aes192>` resumed from the state `ivs`, `pos`
/// (`from_state`), `encrypt` on `data` in place, then `get_state`. Its block holds the
/// ciphertext of the current block so far, then the rest of the key stream
/// block; a full block is encrypted to give the next key stream block.
#[verifier::external_body]
fn aes192_cfb_stream_encrypt(key: &[u8], ivs: &[u8], pos: usize, data: &mut Vec<u8>) -> (r: (Vec<u8>, usize))
    requires
        key@.len() == 24,
        ivs@.len() == 16,
        pos < 16,
    ensures
        r.0@.len() == 16,
        r.1 < 16,
        forall|st: CfbState| st.key == key@ && st.pos == pos && cfb_wf(st) && #[trigger] buf_state_matches(st, ivs@) ==> ({
            let (st2, out) = cfb_run(st, old(data)@, false);
            final(data)@ == out && buf_state_matches(st2, r.0@) && r.1 == st2.pos
        }),
{
    let mut c = cfb_mode::BufEncryptor::<aes::Aes192>::from_state(aes::Aes192::new(GenericArray::from_slice(key)), GenericArray::from_slice(ivs), pos);
    c.encrypt(data.as_mut_slice());
    let (iv, p) = c.get_state();
    (iv.to_vec(), p)
}

/// `cfb_mode::BufDecryptor<aes::Aes192>` resumed from the state `ivs`, `pos`
/// (`from_state`), `decrypt` on `data` in place, then `get_state`. Its block holds the
/// ciphertext of the current block so far, then the rest of the key stream
/// block.
#[verifier::external_body]
fn aes192_cfb_stream_decrypt(key: &[u8], ivs: &[u8], pos: usize, data: &mut Vec<u8>) -> (r: (Vec<u8>, usize))
    requires
        key@.len() == 24,
        ivs@.len() == 16,
        pos < 16,
    ensures
        r.0@.len() == 16,
        r.1 < 16,
        forall|st: CfbState| st.key == key@ && st.pos == pos && cfb_wf(st) && #[trigger] buf_state_matches(st, ivs@) ==> ({
            let (st2, out) = cfb_run(st, old(data)@, true);
            final(data)@ == out && buf_state_matches(st2, r.0@) && r.1 == st2.pos
        }),
{
    let mut c = cfb_mode::BufDecryptor::<aes::Aes192>::from_state(aes::Aes192::new(GenericArray::from_slice(key)), GenericArray::from_slice(ivs), pos);
    c.decrypt(data.as_mut_slice());
    let (iv, p) = c.get_state();
    (iv.to_vec(), p)
}

/// `cfb_mode::BufEncryptor<aes::Aes256>` resumed from the state `ivs`, `pos`
/// (`from_state`), `encrypt` on `data` in place, then `get_state`. Its block holds the
/// ciphertext of the current block so far, then the rest of the key stream
/// block; a full block is encrypted to give the next key stream block.
#[verifier::external_body]
fn aes256_cfb_stream_encrypt(key: &[u8], ivs: &[u8], pos: usize, data: &mut Vec<u8>) -> (r: (Vec<u8>, usize))
    requires
        key@.len() == 32,
        ivs@.len() == 16,
        pos < 16,
    ensures
        r.0@.len() == 16,
        r.1 < 16,
        forall|st: CfbState| st.key == key@ && st.pos == pos && cfb_wf(st) && #[trigger] buf_state_matches(st, ivs@) ==> ({
            let (st2, out) = cfb_run(st, old(data)@, false);
            final(data)@ == out && buf_state_matches(st2, r.0@) && r.1 == st2.pos
        }),
{
    let mut c = cfb_mode::BufEncryptor::<aes::Aes256>::from_state(aes::Aes256::new(GenericArray::from_slice(key)), GenericArray::from_slice(ivs), pos);
    c.encrypt(data.as_mut_slice());
    let (iv, p) = c.get_state();
    (iv.to_vec(), p)
}

/// `cfb_mode::BufDecryptor<aes::Aes256>` resumed from the state `ivs`, `pos`
/// (`from_state`), `decrypt` on `data` in place, then `get_state`. Its block holds the
/// ciphertext of the current block so far, then the rest of the key stream
/// block.
#[verifier::external_body]
fn aes256_cfb_stream_decrypt(key: &[u8], ivs: &[u8], pos: usize, data: &mut Vec<u8>) -> (r: (Vec<u8>, usize))
    requires
        key@.len() == 32,
        ivs@.len() == 16,
        pos < 16,
    ensures
        r.0@.len() == 16,
        r.1 < 16,
        forall|st: CfbState| st.key == key@ && st.pos == pos && cfb_wf(st) && #[trigger] buf_state_matches(st, ivs@) ==> ({
            let (st2, out) = cfb_run(st, old(data)@, true);
            final(data)@ == out && buf_state_matches(st2, r.0@) && r.1 == st2.pos
        }),
{
    let mut c = cfb_mode::BufDecryptor::<aes::Aes256>::from_state(aes::Aes256::new(GenericArray::from_slice(key)), GenericArray::from_slice(ivs), pos);
    c.decrypt(data.as_mut_slice());
    let (iv, p) = c.get_state();
    (iv.to_vec(), p)
}

/// A CFB stream in one direction, kept as `cfb_mode`'s buffered stream
/// state.
pub struct CfbStream {
    pub key: Vec<u8>,
    /// The buffered stream's block.
    pub ivs: Vec<u8>,
    pub pos: usize,
    pub decrypt: bool,
    /// The register last encrypted.
    pub reg: Ghost<Seq<u8>>,
    /// The ciphertext of the current block so far.
    pub acc: Ghost<Seq<u8>>,
}

impl CfbStream {
    /// The abstract state.
    pub open spec fn state(&self) -> CfbState {
        CfbState { key: self.key@, reg: self.reg@, pos: self.pos as nat, acc: self.acc@ }
    }

    pub open spec fn wf(&self) -> bool {
        &&& cfb_wf(self.state())
        &&& buf_state_matches(self.state(), self.ivs@)
        &&& self.ivs@.len() == 16
    }

    /// A stream under `key` (16, 24 or 32 bytes) from the 16-byte `iv`.
    pub fn new(key: &[u8], iv: &[u8], decrypt: bool) -> (r: Self)
        requires
            key@.len() == 16 || key@.len() == 24 || key@.len() == 32,
            iv@.len() == 16,
        ensures
            r.wf(),
            r.state() == cfb_start(key@, iv@),
            r.decrypt == decrypt,
    {
        let k = crate::bytes::copy_range(key, 0, key.len());
        assert(key@.subrange(0, key@.len() as int) == key@);
        let ivs = aes_encrypt_block(k.as_slice(), iv);
        let r = CfbStream { key: k, ivs, pos: 0, decrypt, reg: Ghost(iv@), acc: Ghost(Seq::empty()) };
        assert(r.state().acc + aes_block(k@, iv@).skip(0) =~= ivs@);
        r
    }

    /// Puts `data` through the stream, in place.
    pub fn apply(&mut self, data: &mut Vec<u8>)
        requires
            old(self).wf(),
        ensures
            final(self).wf(),
            final(self).decrypt == old(self).decrypt,
            (final(self).state(), final(data)@) == cfb_run(old(self).state(), old(data)@, old(self).decrypt),
    {
        let ghost st = self.state();
        let ghost next = cfb_run(st, data@, self.decrypt).0;
        proof {
            lemma_cfb_run_wf(st, data@, self.decrypt);
        }
        let n = self.key.len();
        let (ivs, pos) = if self.decrypt {
            if n == 16 {
                aes128_cfb_stream_decrypt(self.key.as_slice(), self.ivs.as_slice(), self.pos, data)
            } else if n == 24 {
                aes192_cfb_stream_decrypt(self.key.as_slice(), self.ivs.as_slice(), self.pos, data)
            } else {
                aes256_cfb_stream_decrypt(self.key.as_slice(), self.ivs.as_slice(), self.pos, data)
            }
        } else {
            if n == 16 {
                aes128_cfb_stream_encrypt(self.key.as_slice(), self.ivs.as_slice(), self.pos, data)
            } else if n == 24 {
                aes192_cfb_stream_encrypt(self.key.as_slice(), self.ivs.as_slice(), self.pos, data)
            } else {
                aes256_cfb_stream_encrypt(self.key.as_slice(), self.ivs.as_slice(), self.pos, data)
            }
        };
        self.ivs = ivs;
        self.pos = pos;
        self.reg = Ghost(next.reg);
        self.acc = Ghost(next.acc);
    }
}

/// Running a stream keeps its key and keeps its state one a stream
/// reaches.
pub proof fn lemma_cfb_run_wf(st: CfbState, data: Seq<u8>, decrypt: bool)
    requires
        cfb_wf(st),
    ensures
        cfb_wf(cfb_run(st, data, decrypt).0),
        cfb_run(st, data, decrypt).0.key == st.key,
    decreases data.len(),
{
    if data.len() > 0 {
        lemma_cfb_run_wf(st, data.drop_last(), decrypt);
    }
}

} // verus!
