//! The Shadowsocks stream ciphers (AES-CFB): key derivation from the
//! password and the per-connection salt.
use vstd::prelude::*;
use crate::plumber::{Plumber, ProcessorKind};
use vstd::utf8::encode_utf8;
use crate::crypto::{evp_bytes_to_key, random_bytes, spec_evp_bytes_to_key};
use crate::bytes::{copy_range, push_slice};
use crate::cfb::{CfbState, CfbStream, cfb_encrypted, cfb_pieces, cfb_run, cfb_start, concat_pieces, lemma_cfb_decrypts, lemma_cfb_pieces, lemma_cfb_run_concat};
use crate::utils::{IoError, eof};

verus! {

/// Registers the processor as `ss_stream_cipher_client`.
pub fn register(plumber: &mut Plumber)
    ensures
        final(plumber)@ == old(plumber)@.push(("ss_stream_cipher_client"@, ProcessorKind::SsStreamCipherClient)),
{
    plumber.register("ss_stream_cipher_client", ProcessorKind::SsStreamCipherClient);
}

/// The stream cipher methods.
#[derive(Debug, Clone, Copy, PartialEq, Eq, Structural)]
pub enum SsStreamCipherKind {
    Aes128Cfb,
    Aes192Cfb,
    Aes256Cfb,
}

impl SsStreamCipherKind {
    pub open spec fn spec_key_len(self) -> nat {
        match self {
            SsStreamCipherKind::Aes128Cfb => 16,
            SsStreamCipherKind::Aes192Cfb => 24,
            SsStreamCipherKind::Aes256Cfb => 32,
        }
    }

    /// The key length of the cipher, in bytes.
    pub fn key_len(&self) -> (r: usize)
        ensures
            r == self.spec_key_len(),
    {
        match self {
            SsStreamCipherKind::Aes128Cfb => 16,
            SsStreamCipherKind::Aes192Cfb => 24,
            SsStreamCipherKind::Aes256Cfb => 32,
        }
    }

    /// The IV (salt) length of the cipher, in bytes: one AES block.
    pub fn iv_len(&self) -> (r: usize)
        ensures
            r == 16,
    {
        16
    }

    /// The master key: `EVP_BytesToKey` with MD5 over the password.
    pub fn derive_key(&self, password: &str) -> (r: Vec<u8>)
        ensures
            r@ == spec_evp_bytes_to_key(encode_utf8(password@), self.spec_key_len()),
            r@.len() == self.spec_key_len(),
    {
        evp_bytes_to_key(password.as_bytes(), self.key_len())
    }

    /// A random salt of the IV length.
    pub fn generate_salt(&self) -> (r: Vec<u8>)
        ensures
            r@.len() == 16,
    {
        random_bytes(self.iv_len())
    }
}

/// The configuration of a stream cipher client.
#[derive(Debug, Clone)]
pub struct ClientConfig {
    pub method: SsStreamCipherKind,
    pub password: String,
}

/// A stream cipher client: the method and the master key.
#[derive(Debug)]
pub struct ClientProcessor {
    pub method: SsStreamCipherKind,
    pub master_key: Vec<u8>,
}

impl ClientProcessor {
    pub fn new(method: SsStreamCipherKind, password: &str) -> (r: Self)
        ensures
            r.method == method,
            r.master_key@ == spec_evp_bytes_to_key(encode_utf8(password@), method.spec_key_len()),
    {
        let key = method.derive_key(password);
        ClientProcessor { method, master_key: key }
    }

    /// The salt that starts the upstream bytes of a new connection; the
    /// connection publishes it and the master key for the auth layer.
    pub fn new_connection_salt(&self) -> (r: Vec<u8>)
        ensures
            r@.len() == 16,
    {
        self.method.generate_salt()
    }
}

/// Where the reading half of a stream connection is.
pub enum StreamReadState {
    /// Collecting the server's 16-byte salt.
    ReadSalt { salt: Vec<u8> },
    /// Decrypting with the key and the server's salt.
    ReadData(CfbStream),
}

/// The abstract reading state: the salt so far, or the decryption state.
pub enum ReadView {
    Salt(Seq<u8>),
    Data(CfbState),
}

impl StreamReadState {
    pub open spec fn view_state(&self) -> ReadView {
        match self {
            StreamReadState::ReadSalt { salt } => ReadView::Salt(salt@),
            StreamReadState::ReadData(d) => ReadView::Data(d.state()),
        }
    }
}

/// One read of `data` under master key `key`: the first 16 bytes of the
/// stream complete the salt, which starts the decryption; the rest is
/// decrypted.
pub open spec fn read_step(key: Seq<u8>, v: ReadView, data: Seq<u8>) -> (ReadView, Seq<u8>) {
    match v {
        ReadView::Data(st) => {
            let (s2, p) = cfb_run(st, data, true);
            (ReadView::Data(s2), p)
        },
        ReadView::Salt(salt) => {
            let need = 16 - salt.len();
            if data.len() < need {
                (ReadView::Salt(salt + data), Seq::empty())
            } else {
                let (s2, p) = cfb_run(cfb_start(key, salt + data.take(need)), data.skip(need), true);
                (ReadView::Data(s2), p)
            }
        },
    }
}

/// Successive reads of the pieces: the state after, and everything they
/// gave, one after another.
pub open spec fn read_steps(key: Seq<u8>, v: ReadView, ps: Seq<Seq<u8>>) -> (ReadView, Seq<u8>)
    decreases ps.len(),
{
    if ps.len() == 0 {
        (v, Seq::empty())
    } else {
        let (v1, o1) = read_step(key, v, ps[0]);
        let (v2, o2) = read_steps(key, v1, ps.drop_first());
        (v2, o1 + o2)
    }
}

pub open spec fn read_view_wf(v: ReadView) -> bool {
    v matches ReadView::Salt(s) ==> s.len() < 16
}

proof fn lemma_read_step_concat(key: Seq<u8>, v: ReadView, a: Seq<u8>, b: Seq<u8>)
    requires
        read_view_wf(v),
    ensures
        read_view_wf(read_step(key, v, a).0),
        read_step(key, v, a + b) == ({
            let (v1, o1) = read_step(key, v, a);
            let (v2, o2) = read_step(key, v1, b);
            (v2, o1 + o2)
        }),
{
    match v {
        ReadView::Data(st) => {
            lemma_cfb_run_concat(st, a, b, true);
        },
        ReadView::Salt(salt) => {
            let need = 16 - salt.len();
            if a.len() < need {
                let need2 = need - a.len();
                if (a + b).len() < need {
                    assert(salt + (a + b) == (salt + a) + b);
                } else {
                    assert(salt + (a + b).take(need) =~= (salt + a) + b.take(need2));
                    assert((a + b).skip(need) =~= b.skip(need2));
                }
                let (v1, o1) = read_step(key, v, a);
                assert(o1 + read_step(key, v1, b).1 =~= read_step(key, v1, b).1);
            } else {
                assert((a + b).take(need) =~= a.take(need));
                assert((a + b).skip(need) =~= a.skip(need) + b);
                lemma_cfb_run_concat(cfb_start(key, salt + a.take(need)), a.skip(need), b, true);
            }
        },
    }
}

/// However the server's bytes are cut into reads, the reads together give
/// what one read of all of them would.
pub proof fn lemma_read_steps(key: Seq<u8>, v: ReadView, ps: Seq<Seq<u8>>)
    requires
        read_view_wf(v),
    ensures
        read_steps(key, v, ps) == read_step(key, v, concat_pieces(ps)),
    decreases ps.len(),
{
    if ps.len() == 0 {
        match v {
            ReadView::Data(st) => {
                assert(cfb_run(st, Seq::<u8>::empty(), true) == (st, Seq::<u8>::empty()));
            },
            ReadView::Salt(salt) => {
                assert(salt + Seq::<u8>::empty() == salt);
            },
        }
    } else {
        lemma_read_step_concat(key, v, ps[0], concat_pieces(ps.drop_first()));
        let (v1, o1) = read_step(key, v, ps[0]);
        lemma_read_steps(key, v1, ps.drop_first());
    }
}

/// What a peer with the same master key sends, its salt and then its data
/// encrypted under that salt, is read back as that data, however the reads
/// cut it.
pub proof fn lemma_stream_read_roundtrip(key: Seq<u8>, salt: Seq<u8>, p: Seq<u8>, ps: Seq<Seq<u8>>)
    requires
        salt.len() == 16,
        concat_pieces(ps) == salt + cfb_encrypted(key, salt, p),
    ensures
        read_steps(key, ReadView::Salt(Seq::empty()), ps).1 == p,
{
    lemma_read_steps(key, ReadView::Salt(Seq::empty()), ps);
    let all = salt + cfb_encrypted(key, salt, p);
    assert(all.take(16) =~= salt);
    assert(all.skip(16) =~= cfb_encrypted(key, salt, p));
    assert(Seq::<u8>::empty() + salt == salt);
    lemma_cfb_decrypts(key, salt, p);
}

/// Successive writes: what they send, the salt before the first, and the
/// encryption state after.
pub open spec fn write_steps(salt: Option<Seq<u8>>, st: CfbState, bufs: Seq<Seq<u8>>) -> (CfbState, Seq<u8>)
    decreases bufs.len(),
{
    if bufs.len() == 0 {
        (st, Seq::empty())
    } else {
        let (s1, c) = cfb_run(st, bufs[0], false);
        let head = match salt {
            Some(s) => s + c,
            None => c,
        };
        let (s2, rest) = write_steps(None, s1, bufs.drop_first());
        (s2, head + rest)
    }
}

/// A series of writes sends the salt once, then the encryption of all the
/// written data as one continuous stream.
pub proof fn lemma_stream_writes(salt: Seq<u8>, st: CfbState, bufs: Seq<Seq<u8>>)
    requires
        bufs.len() > 0,
    ensures
        write_steps(Some(salt), st, bufs) == ({
            let (s2, c) = cfb_run(st, concat_pieces(bufs), false);
            (s2, salt + c)
        }),
{
    let (s1, c) = cfb_run(st, bufs[0], false);
    lemma_write_steps_plain(s1, bufs.drop_first());
    lemma_cfb_pieces(s1, bufs.drop_first(), false);
    lemma_cfb_run_concat(st, bufs[0], concat_pieces(bufs.drop_first()), false);
    assert(concat_pieces(bufs) == bufs[0] + concat_pieces(bufs.drop_first()));
    let (s2, rest) = write_steps(None, s1, bufs.drop_first());
    assert(salt + c + rest == salt + (c + rest));
}

proof fn lemma_write_steps_plain(st: CfbState, bufs: Seq<Seq<u8>>)
    ensures
        write_steps(None, st, bufs) == cfb_pieces(st, bufs, false),
    decreases bufs.len(),
{
    if bufs.len() > 0 {
        let (s1, c) = cfb_run(st, bufs[0], false);
        lemma_write_steps_plain(s1, bufs.drop_first());
    }
}

/// A Shadowsocks stream connection: upstream bytes are the salt and then
/// the encrypted data; downstream bytes the server's salt and then its
/// encrypted data.
pub struct ClientStream {
    pub master_key: Vec<u8>,
    pub encrypter: CfbStream,
    /// The salt, until the first write sends it.
    pub salt_pending: Option<Vec<u8>>,
    pub read_state: StreamReadState,
}

impl ClientStream {
    pub open spec fn wf(&self) -> bool {
        &&& self.encrypter.wf()
        &&& !self.encrypter.decrypt
        &&& (self.master_key@.len() == 16 || self.master_key@.len() == 24 || self.master_key@.len() == 32)
        &&& match self.read_state {
            StreamReadState::ReadSalt { salt } => salt@.len() < 16,
            StreamReadState::ReadData(d) => d.wf() && d.decrypt,
        }
    }

    /// A connection under the master key, sending `salt` first.
    pub fn new(method: SsStreamCipherKind, master_key: &[u8], salt: &[u8]) -> (r: Self)
        requires
            master_key@.len() == method.spec_key_len(),
            salt@.len() == 16,
        ensures
            r.wf(),
            r.master_key@ == master_key@,
            r.encrypter.state() == cfb_start(master_key@, salt@),
            r.salt_pending matches Some(s) && s@ == salt@,
            r.read_state matches StreamReadState::ReadSalt { salt } && salt@.len() == 0,
    {
        let key = copy_range(master_key, 0, master_key.len());
        assert(master_key@.subrange(0, master_key@.len() as int) == master_key@);
        let s = copy_range(salt, 0, 16);
        assert(salt@.subrange(0, 16) == salt@);
        ClientStream {
            master_key: key,
            encrypter: CfbStream::new(master_key, salt, false),
            salt_pending: Some(s),
            read_state: StreamReadState::ReadSalt { salt: Vec::new() },
        }
    }

    /// The bytes to send for a write of `buf` (not empty): the salt before
    /// the first, then `buf` encrypted. All of `buf` is taken.
    pub fn prepare_write(&mut self, buf: &[u8]) -> (r: Vec<u8>)
        requires
            old(self).wf(),
            buf@.len() > 0,
        ensures
            final(self).wf(),
            final(self).master_key == old(self).master_key,
            final(self).read_state == old(self).read_state,
            final(self).salt_pending is None,
            (final(self).encrypter.state(), r@) == write_steps(
                match old(self).salt_pending { Some(s) => Some(s@), None => None },
                old(self).encrypter.state(), seq![buf@]),
            ({
                let (st, c) = cfb_run(old(self).encrypter.state(), buf@, false);
                &&& final(self).encrypter.state() == st
                &&& r@ == match old(self).salt_pending {
                    Some(s) => s@ + c,
                    None => c,
                }
            }),
    {
        let mut data = copy_range(buf, 0, buf.len());
        assert(buf@.subrange(0, buf@.len() as int) == buf@);
        self.encrypter.apply(&mut data);
        let mut out = match &self.salt_pending {
            Some(s) => copy_range(s.as_slice(), 0, s.len()),
            None => Vec::new(),
        };
        proof {
            if let Some(s) = old(self).salt_pending {
                assert(s@.subrange(0, s@.len() as int) == s@);
            }
        }
        let ghost head = out@;
        push_slice(&mut out, data.as_slice());
        self.salt_pending = None;
        proof {
            let bufs = seq![buf@];
            assert(bufs[0] == buf@);
            assert(bufs.drop_first() =~= Seq::<Seq<u8>>::empty());
            assert(out@ + Seq::<u8>::empty() == out@);
            let pend = match old(self).salt_pending { Some(s) => Some(s@), None => None::<Seq<u8>> };
            let (s1, c) = cfb_run(old(self).encrypter.state(), buf@, false);
            assert(write_steps(None, s1, bufs.drop_first()) == (s1, Seq::<u8>::empty()));
            let head = match pend { Some(x) => x + c, None => c };
            assert(head + Seq::<u8>::empty() == head);
            assert(write_steps(pend, old(self).encrypter.state(), bufs) == (s1, head + Seq::<u8>::empty()));
        }
        out
    }

    /// Bytes read from the server: the first 16 are its salt, which sets up
    /// the decryption under the master key; the rest are decrypted.
    pub fn on_read(&mut self, data: &[u8]) -> (r: Vec<u8>)
        requires
            old(self).wf(),
        ensures
            final(self).wf(),
            (final(self).read_state.view_state(), r@)
                == read_step(old(self).master_key@, old(self).read_state.view_state(), data@),
            final(self).master_key == old(self).master_key,
            final(self).encrypter == old(self).encrypter,
            final(self).salt_pending == old(self).salt_pending,
            match old(self).read_state {
                StreamReadState::ReadData(d) => {
                    let (st, p) = cfb_run(d.state(), data@, true);
                    &&& r@ == p
                    &&& final(self).read_state matches StreamReadState::ReadData(d2) && d2.state() == st
                },
                StreamReadState::ReadSalt { salt } => {
                    let need = (16 - salt@.len()) as int;
                    if data@.len() < need {
                        &&& r@.len() == 0
                        &&& final(self).read_state matches StreamReadState::ReadSalt { salt: s2 } && s2@ == salt@ + data@
                    } else {
                        let full = salt@ + data@.take(need);
                        let (st, p) = cfb_run(cfb_start(old(self).master_key@, full), data@.skip(need), true);
                        &&& r@ == p
                        &&& final(self).read_state matches StreamReadState::ReadData(d2) && d2.state() == st
                    }
                },
            },
    {
        let ghost key = self.master_key@;
        match &mut self.read_state {
            StreamReadState::ReadData(d) => {
                let mut v = copy_range(data, 0, data.len());
                assert(data@.subrange(0, data@.len() as int) == data@);
                d.apply(&mut v);
                v
            },
            StreamReadState::ReadSalt { salt } => {
                let need = 16 - salt.len();
                if data.len() < need {
                    push_slice(salt, data);
                    return Vec::new();
                }
                let head = copy_range(data, 0, need);
                push_slice(salt, head.as_slice());
                let mut dec = CfbStream::new(self.master_key.as_slice(), salt.as_slice(), true);
                let mut v = copy_range(data, need, data.len());
                assert(data@.subrange(0, need as int) == data@.take(need as int));
                assert(data@.subrange(need as int, data@.len() as int) == data@.skip(need as int));
                dec.apply(&mut v);
                self.read_state = StreamReadState::ReadData(dec);
                v
            },
        }
    }

    /// What the end of the server's bytes means: an error before its salt
    /// is complete, the end of the data after.
    pub fn on_eof(&self) -> (r: Result<(), IoError>)
        ensures
            match self.read_state {
                StreamReadState::ReadSalt { .. } => r matches Err(IoError::UnexpectedEof),
                StreamReadState::ReadData(_) => r is Ok,
            },
    {
        match &self.read_state {
            StreamReadState::ReadSalt { .. } => Err(eof()),
            StreamReadState::ReadData(_) => Ok(()),
        }
    }
}

} // verus!
