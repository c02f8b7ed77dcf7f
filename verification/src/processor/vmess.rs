//! The VMess client: request header, response check, and the masked,
//! padded AEAD chunks that carry the data.
pub mod crypto;
pub mod alter_id;
pub mod session;

use vstd::prelude::*;
use crate::bytes::{copy_range, push_slice};
use crate::crypto::{
    aes128_gcm_open, aes128_gcm_opened, aes128_gcm_seal, aes128_gcm_sealed, chacha20_poly1305_open,
    chacha20_poly1305_opened, chacha20_poly1305_seal, chacha20_poly1305_sealed,
};
use self::crypto::{ShakeGenerator, VmessNonceSeq, generate_chacha20poly1305_key, shake_word, spec_chacha20poly1305_key, vmess_nonce};
use self::session::{ClientSession, request_header_error, RequestHeaderError, ResponseHeaderError};
use self::alter_id::{UserId, alter_id_chain, new_alter_ids, user_ids, uuid_bytes};
use crate::router::matching::Connection;

verus! {

/// The AEAD that protects the data chunks.
#[derive(Debug, Clone, Copy, PartialEq, Eq, Structural)]
pub enum SecurityType {
    Aes128Gcm,
    Chacha20Poly1305,
    /// Resolved to one of the others before use.
    Auto,
}

impl SecurityType {
    /// The preferred choice on a target: AES-128-GCM where the processor
    /// has AES instructions (x86-64, AArch64), ChaCha20-Poly1305 elsewhere.
    pub fn for_target(aes_accelerated: bool) -> (r: SecurityType)
        ensures
            r == (if aes_accelerated { SecurityType::Aes128Gcm } else { SecurityType::Chacha20Poly1305 }),
    {
        if aes_accelerated { SecurityType::Aes128Gcm } else { SecurityType::Chacha20Poly1305 }
    }

    /// The default on x86-64 and AArch64: AES-128-GCM.
    pub fn default() -> (r: SecurityType)
        ensures
            r == SecurityType::Aes128Gcm,
    {
        Self::for_target(true)
    }
}

/// The most data one chunk carries: the chunk limit less the largest
/// padding.
pub const MAX_CHUNK_DATA: usize = 16320;

/// The sealed form of `p` under the given AEAD.
pub open spec fn chunk_sealed(sec: SecurityType, key: Seq<u8>, nonce: Seq<u8>, p: Seq<u8>) -> Seq<u8> {
    match sec {
        SecurityType::Aes128Gcm => aes128_gcm_sealed(key, nonce, p),
        _ => chacha20_poly1305_sealed(key, nonce, p),
    }
}

/// What opening `c` under the given AEAD gives.
pub open spec fn chunk_opened(sec: SecurityType, key: Seq<u8>, nonce: Seq<u8>, c: Seq<u8>) -> Option<Seq<u8>> {
    match sec {
        SecurityType::Aes128Gcm => aes128_gcm_opened(key, nonce, c),
        _ => chacha20_poly1305_opened(key, nonce, c),
    }
}

/// The key length of a resolved security type.
pub open spec fn chunk_key_len(sec: SecurityType) -> nat {
    match sec {
        SecurityType::Aes128Gcm => 16,
        _ => 32,
    }
}

/// The AEAD of one direction with its key and nonce sequence.
pub struct ChunkCrypter {
    pub security: SecurityType,
    pub key: Vec<u8>,
    pub nonces: VmessNonceSeq,
}

impl ChunkCrypter {
    pub open spec fn wf(&self) -> bool {
        &&& self.security != SecurityType::Auto
        &&& self.key@.len() == chunk_key_len(self.security)
        &&& self.nonces.wf()
    }

    /// The AEAD of a direction whose key material is `key` (16 bytes) and
    /// whose IV is `iv` (16 bytes): AES-128-GCM takes `aes_key` as it is,
    /// ChaCha20-Poly1305 the stretched `key`; the nonces end in bytes 2 to
    /// 11 of the IV.
    pub open spec fn made_from(&self, sec: SecurityType, aes_key: Seq<u8>, key: Seq<u8>, iv: Seq<u8>) -> bool {
        &&& self.security == sec
        &&& self.key@ == (if sec == SecurityType::Aes128Gcm { aes_key } else { spec_chacha20poly1305_key(key) })
        &&& self.nonces.counter == 0
        &&& self.nonces.tail@ == iv.subrange(2, 12)
    }

    pub fn new(sec: SecurityType, aes_key: &[u8], key: &[u8], iv: &[u8]) -> (r: Self)
        requires
            sec != SecurityType::Auto,
            aes_key@.len() == 16,
            iv@.len() == 16,
        ensures
            r.wf(),
            r.made_from(sec, aes_key@, key@, iv@),
    {
        let tail = copy_range(iv, 2, 12);
        let nonces = VmessNonceSeq::new(tail.as_slice());
        let k = match sec {
            SecurityType::Aes128Gcm => {
                let k = copy_range(aes_key, 0, 16);
                assert(aes_key@.subrange(0, 16) == aes_key@);
                k
            },
            _ => generate_chacha20poly1305_key(key),
        };
        ChunkCrypter { security: sec, key: k, nonces }
    }

    /// Seals `p` under the next nonce.
    pub fn seal(&mut self, p: &[u8]) -> (r: Vec<u8>)
        requires
            old(self).wf(),
            p@.len() <= 0xffff_ffff,
        ensures
            final(self).wf(),
            final(self).security == old(self).security,
            final(self).key@ == old(self).key@,
            final(self).nonces.tail@ == old(self).nonces.tail@,
            final(self).nonces.counter == (old(self).nonces.counter + 1) % 0x1_0000,
            r@ == chunk_sealed(old(self).security, old(self).key@, vmess_nonce(old(self).nonces.counter, old(self).nonces.tail@), p@),
            r@.len() == p@.len() + 16,
    {
        let nonce = match self.nonces.advance() {
            Some(n) => n,
            None => Vec::new(),
        };
        match self.security {
            SecurityType::Aes128Gcm => aes128_gcm_seal(self.key.as_slice(), nonce.as_slice(), p),
            _ => chacha20_poly1305_seal(self.key.as_slice(), nonce.as_slice(), p),
        }
    }

    /// Opens `c` under the next nonce.
    pub fn open(&mut self, c: &[u8]) -> (r: Option<Vec<u8>>)
        requires
            old(self).wf(),
        ensures
            final(self).wf(),
            final(self).security == old(self).security,
            final(self).key@ == old(self).key@,
            final(self).nonces.tail@ == old(self).nonces.tail@,
            final(self).nonces.counter == (old(self).nonces.counter + 1) % 0x1_0000,
            match chunk_opened(old(self).security, old(self).key@, vmess_nonce(old(self).nonces.counter, old(self).nonces.tail@), c@) {
                Some(p) => r matches Some(v) && v@ == p && p.len() + 16 == c@.len(),
                None => r is None,
            },
    {
        let nonce = match self.nonces.advance() {
            Some(n) => n,
            None => Vec::new(),
        };
        match self.security {
            SecurityType::Aes128Gcm => aes128_gcm_open(self.key.as_slice(), nonce.as_slice(), c),
            _ => chacha20_poly1305_open(self.key.as_slice(), nonce.as_slice(), c),
        }
    }
}

/// The sending half of a VMess connection: the masks and padding come from
/// the SHAKE128 stream of the request IV.
pub struct ChunkWriter {
    pub shake: ShakeGenerator,
    pub crypter: ChunkCrypter,
}

impl ChunkWriter {
    pub open spec fn wf(&self) -> bool {
        self.crypter.wf()
    }

    /// The writer of a session: AES-128-GCM seals under the response key,
    /// ChaCha20-Poly1305 under the stretched request key; the nonces end in
    /// bytes 2 to 11 of the request IV.
    pub fn new(session: &ClientSession, security: SecurityType) -> (r: Self)
        requires
            session.wf(),
            security != SecurityType::Auto,
        ensures
            r.wf(),
            r.shake.source() == session.request_iv@,
            r.shake.position() == 0,
            r.crypter.made_from(security, session.response_key@, session.request_key@, session.request_iv@),
    {
        ChunkWriter {
            shake: ShakeGenerator::new(session.request_iv.as_slice()),
            crypter: ChunkCrypter::new(security, session.response_key.as_slice(), session.request_key.as_slice(), session.request_iv.as_slice()),
        }
    }

    /// Packs the start of `buf` (at most `MAX_CHUNK_DATA` bytes) into one
    /// chunk: the masked length of the data, the sealed data, and as many
    /// zero bytes of padding as the stream says. Returns the chunk and how
    /// much of `buf` it carries.
    pub fn pack_chunk(&mut self, buf: &[u8]) -> (r: (Vec<u8>, usize))
        requires
            old(self).wf(),
            buf@.len() > 0,
        ensures
            final(self).wf(),
            r.1 == (if buf@.len() < MAX_CHUNK_DATA { buf@.len() } else { MAX_CHUNK_DATA as nat }),
            final(self).shake.source() == old(self).shake.source(),
            final(self).shake.position() == old(self).shake.position() + 4,
            final(self).crypter.security == old(self).crypter.security,
            final(self).crypter.key@ == old(self).crypter.key@,
            final(self).crypter.nonces.tail@ == old(self).crypter.nonces.tail@,
            final(self).crypter.nonces.counter == (old(self).crypter.nonces.counter + 1) % 0x1_0000,
            ({
                let src = old(self).shake.source();
                let pos = old(self).shake.position();
                let padding = (shake_word(src, pos) % 64) as nat;
                let len = shake_word(src, pos + 2) ^ (r.1 as u16);
                r.0@ == seq![(len / 256) as u8, (len % 256) as u8]
                    + chunk_sealed(old(self).crypter.security, old(self).crypter.key@,
                        vmess_nonce(old(self).crypter.nonces.counter, old(self).crypter.nonces.tail@), buf@.take(r.1 as int))
                    + Seq::new(padding, |i: int| 0u8)
            }),
    {
        let consumed: usize = if buf.len() < MAX_CHUNK_DATA { buf.len() } else { MAX_CHUNK_DATA };
        let padding = self.shake.next_padding();
        let len = self.shake.encode(consumed as u16);
        let mut frame: Vec<u8> = Vec::new();
        frame.push((len / 256) as u8);
        frame.push((len % 256) as u8);
        let data = copy_range(buf, 0, consumed);
        let mut sealed = self.crypter.seal(data.as_slice());
        frame.append(&mut sealed);
        let ghost head = frame@;
        let mut i: usize = 0;
        while i < padding
            invariant
                i <= padding,
                frame@ == head + Seq::new(i as nat, |k: int| 0u8),
            decreases padding - i,
        {
            frame.push(0);
            i = i + 1;
            assert(frame@ =~= head + Seq::new(i as nat, |k: int| 0u8));
        }
        assert(data@ == buf@.take(consumed as int));
        (frame, consumed)
    }
}

/// Where the reading half is.
pub enum ReaderState {
    /// Waiting for the four-byte response header.
    ReadHeader,
    /// Waiting for a chunk's two-byte masked length.
    ReadLength,
    /// Waiting for a chunk of `length` bytes, the last `padding` of them
    /// padding.
    ReadData { length: usize, padding: usize },
    /// Holding the opened data of a chunk; bytes still buffered from the
    /// connection are appended to it (see `ChunkReader::step`).
    ConsumeData { buf: Vec<u8> },
}

/// Why reading failed.
#[derive(Debug, Clone, Copy, PartialEq, Eq, Structural)]
pub enum ReadError {
    /// The response header was refused.
    Header(ResponseHeaderError),
    /// A chunk is shorter than its padding.
    PaddingTooLong,
    /// A chunk did not open.
    Crypto,
}

/// What the reading half asks of its caller.
pub enum ReadAction {
    /// Read more bytes from the connection (at least `n` are wanted in the
    /// buffer), append them, and step again.
    Fill(usize),
    /// Step again.
    Continue,
    /// The read completes, handing the caller these bytes.
    Output(Vec<u8>),
    /// The connection is broken.
    Fail(ReadError),
}

/// The receiving half of a VMess connection.
pub struct ChunkReader {
    pub session: ClientSession,
    pub state: ReaderState,
    pub read_buf: Vec<u8>,
    pub shake: ShakeGenerator,
    pub crypter: ChunkCrypter,
}

impl ChunkReader {
    pub open spec fn wf(&self) -> bool {
        self.session.wf() && self.crypter.wf()
    }

    /// The reader of a session: the masks come from the SHAKE128 stream of
    /// the response IV; AES-128-GCM opens under the response key,
    /// ChaCha20-Poly1305 under the stretched response key.
    pub fn new(session: ClientSession, security: SecurityType) -> (r: Self)
        requires
            session.wf(),
            security != SecurityType::Auto,
        ensures
            r.wf(),
            r.session == session,
            r.state is ReadHeader,
            r.read_buf@.len() == 0,
            r.shake.source() == session.response_iv@,
            r.shake.position() == 0,
            r.crypter.made_from(security, session.response_key@, session.response_key@, session.response_iv@),
    {
        let shake = ShakeGenerator::new(session.response_iv.as_slice());
        let crypter = ChunkCrypter::new(security, session.response_key.as_slice(), session.response_key.as_slice(), session.response_iv.as_slice());
        ChunkReader { session, state: ReaderState::ReadHeader, read_buf: Vec::new(), shake, crypter }
    }

    /// Appends bytes read from the connection.
    pub fn fill(&mut self, data: &[u8])
        ensures
            final(self).read_buf@ == old(self).read_buf@ + data@,
            final(self).session == old(self).session,
            final(self).state == old(self).state,
            final(self).shake == old(self).shake,
            final(self).crypter == old(self).crypter,
    {
        push_slice(&mut self.read_buf, data);
    }
}

impl ChunkReader {
    /// The reader after one step, as far as the state, the buffer and the
    /// stream position go.
    pub open spec fn same_keys(&self, other: &ChunkReader) -> bool {
        &&& self.session == other.session
        &&& self.shake.source() == other.shake.source()
        &&& self.crypter.security == other.crypter.security
        &&& self.crypter.key@ == other.crypter.key@
        &&& self.crypter.nonces.tail@ == other.crypter.nonces.tail@
    }

    /// One step of the reading half, for a caller that wants up to `want`
    /// bytes:
    /// - the response header is checked once four bytes are there, and then
    ///   more is read;
    /// - a chunk's length comes from its two bytes, unmasked with the next
    ///   stream word, after a padding length (the word before, modulo 64);
    /// - once the whole chunk is there, its data (the chunk less its
    ///   padding) is opened under the next nonce, and the chunk dropped;
    /// - with the opened data held, each step moves as many bytes of the
    ///   connection buffer as the held data has onto its end, and the read
    ///   completes handing the caller nothing; once the connection buffer is
    ///   empty, the next chunk's length is read. (The held buffer, not the
    ///   caller's, is what receives these bytes: the name of the read buffer
    ///   is taken by the held data in this state.)
    pub fn step(&mut self, want: usize) -> (r: ReadAction)
        requires
            old(self).wf(),
            want > 0,
        ensures
            final(self).wf(),
            final(self).same_keys(old(self)),
            ({
                let buf = old(self).read_buf@;
                let src = old(self).shake.source();
                let pos = old(self).shake.position();
                let ctr = old(self).crypter.nonces.counter;
                match old(self).state {
                    ReaderState::ReadHeader => if buf.len() < 4 {
                        r == ReadAction::Fill(4) && *final(self) == *old(self)
                    } else {
                        match old(self).session.spec_response_check(buf) {
                            Err(e) => r == ReadAction::Fail(ReadError::Header(e)),
                            Ok(_) => r == ReadAction::Fill(4) && final(self).state is ReadLength
                                && final(self).read_buf@ == buf.skip(4)
                                && final(self).shake.position() == pos
                                && final(self).crypter.nonces.counter == ctr,
                        }
                    },
                    ReaderState::ReadLength => if buf.len() < 2 {
                        r == ReadAction::Fill(2) && *final(self) == *old(self)
                    } else {
                        r == ReadAction::Continue
                            && final(self).state == (ReaderState::ReadData {
                                length: (shake_word(src, pos + 2) ^ ((buf[0] as int * 256 + buf[1] as int) as u16)) as usize,
                                padding: (shake_word(src, pos) % 64) as usize,
                            })
                            && final(self).read_buf@ == buf.skip(2)
                            && final(self).shake.position() == pos + 4
                            && final(self).crypter.nonces.counter == ctr
                    },
                    ReaderState::ReadData { length, padding } => if buf.len() < length {
                        r == ReadAction::Fill(length) && *final(self) == *old(self)
                    } else if padding > length {
                        r == ReadAction::Fail(ReadError::PaddingTooLong)
                    } else {
                        match chunk_opened(old(self).crypter.security, old(self).crypter.key@,
                            vmess_nonce(ctr, old(self).crypter.nonces.tail@), buf.take(length - padding)) {
                            None => r == ReadAction::Fail(ReadError::Crypto),
                            Some(p) => {
                                &&& r == ReadAction::Continue
                                &&& (final(self).state matches ReaderState::ConsumeData { buf: d } && d@ == p)
                                &&& final(self).read_buf@ == buf.skip(length as int)
                                &&& final(self).shake.position() == pos
                                &&& final(self).crypter.nonces.counter == (ctr + 1) % 0x1_0000
                            },
                        }
                    },
                    ReaderState::ConsumeData { buf: d } => if buf.len() == 0 {
                        r == ReadAction::Continue && final(self).state is ReadLength
                            && final(self).read_buf@ == buf
                            && final(self).shake.position() == pos
                            && final(self).crypter.nonces.counter == ctr
                    } else {
                        let n = if buf.len() < d@.len() { buf.len() as int } else { d@.len() as int };
                        &&& (r matches ReadAction::Output(o) && o@.len() == 0)
                        &&& (final(self).state matches ReaderState::ConsumeData { buf: held } && held@ == d@ + buf.take(n))
                        &&& final(self).read_buf@ == buf.skip(n)
                        &&& final(self).shake.position() == pos
                        &&& final(self).crypter.nonces.counter == ctr
                    },
                }
            }),
    {
        match &self.state {
            ReaderState::ReadHeader => {
                if self.read_buf.len() < 4 {
                    return ReadAction::Fill(4);
                }
                match self.session.decode_response_header(self.read_buf.as_slice()) {
                    Err(e) => return ReadAction::Fail(ReadError::Header(e)),
                    Ok(()) => {},
                }
                self.read_buf = copy_range(self.read_buf.as_slice(), 4, self.read_buf.len());
                self.state = ReaderState::ReadLength;
                ReadAction::Fill(4)
            },
            ReaderState::ReadLength => {
                if self.read_buf.len() < 2 {
                    return ReadAction::Fill(2);
                }
                let padding = self.shake.next_padding();
                let raw: u16 = (self.read_buf[0] as u16) * 256 + self.read_buf[1] as u16;
                let length = self.shake.encode(raw);
                self.read_buf = copy_range(self.read_buf.as_slice(), 2, self.read_buf.len());
                self.state = ReaderState::ReadData { length: length as usize, padding };
                ReadAction::Continue
            },
            ReaderState::ReadData { length, padding } => {
                let length = *length;
                let padding = *padding;
                if self.read_buf.len() < length {
                    return ReadAction::Fill(length);
                }
                if padding > length {
                    return ReadAction::Fail(ReadError::PaddingTooLong);
                }
                let sealed = copy_range(self.read_buf.as_slice(), 0, length - padding);
                match self.crypter.open(sealed.as_slice()) {
                    None => ReadAction::Fail(ReadError::Crypto),
                    Some(p) => {
                        self.read_buf = copy_range(self.read_buf.as_slice(), length, self.read_buf.len());
                        self.state = ReaderState::ConsumeData { buf: p };
                        ReadAction::Continue
                    },
                }
            },
            ReaderState::ConsumeData { buf } => {
                if self.read_buf.len() == 0 {
                    self.state = ReaderState::ReadLength;
                    return ReadAction::Continue;
                }
                let n = if self.read_buf.len() < buf.len() { self.read_buf.len() } else { buf.len() };
                let mut held = copy_range(buf.as_slice(), 0, buf.len());
                assert(buf@.subrange(0, buf@.len() as int) == buf@);
                let moved = copy_range(self.read_buf.as_slice(), 0, n);
                push_slice(&mut held, moved.as_slice());
                self.read_buf = copy_range(self.read_buf.as_slice(), n, self.read_buf.len());
                self.state = ReaderState::ConsumeData { buf: held };
                ReadAction::Output(Vec::new())
            },
        }
    }
}

/// The configuration of a VMess client.
#[derive(Debug)]
pub struct ClientConfig {
    pub user_id: uuid::Uuid,
    pub alter_id: u16,
    pub security: SecurityType,
}

/// A VMess client: its resolved security and its accounts, the derived
/// ids first and the primary id last.
#[derive(Debug)]
pub struct ClientProcessor {
    pub security: SecurityType,
    pub accounts: Vec<UserId>,
}

/// Why a connection could not be started.
#[derive(Debug, Clone, Copy, PartialEq, Eq, Structural)]
pub enum StartError {
    /// The clock is before 1970.
    Clock,
    /// The request header could not be made.
    Header(RequestHeaderError),
}

impl ClientProcessor {
    pub open spec fn wf(&self) -> bool {
        &&& self.security != SecurityType::Auto
        &&& self.accounts@.len() > 0
        &&& forall|i: int| 0 <= i < self.accounts@.len() ==> (#[trigger] self.accounts@[i]).wf()
    }

    /// Resolves `Auto` to the default security, and derives `alter_id` ids
    /// from the primary one; the primary user comes last.
    pub fn new(config: ClientConfig) -> (r: Self)
        ensures
            r.wf(),
            r.security == (if config.security == SecurityType::Auto { SecurityType::Aes128Gcm } else { config.security }),
            user_ids(r.accounts@) == alter_id_chain(uuid_bytes(config.user_id), config.alter_id as nat)
                .push(uuid_bytes(config.user_id)),
    {
        let security = if config.security == SecurityType::Auto { SecurityType::default() } else { config.security };
        let primary = UserId::new(config.user_id);
        let mut accounts = if config.alter_id > 0 {
            new_alter_ids(&primary, config.alter_id)
        } else {
            Vec::new()
        };
        proof {
            if config.alter_id == 0 {
                assert(user_ids(accounts@) =~= alter_id_chain(uuid_bytes(config.user_id), 0));
            }
        }
        let ghost before = accounts@;
        accounts.push(primary);
        assert(user_ids(accounts@) =~= user_ids(before).push(uuid_bytes(config.user_id)));
        ClientProcessor { security, accounts }
    }

    /// Starts a connection as the first account: a new session, its request
    /// header, and the two halves. The header goes out before the first
    /// chunk.
    pub fn start(&self, conn: &Connection) -> (r: Result<(Vec<u8>, ChunkReader, ChunkWriter), StartError>)
        requires
            self.wf(),
        ensures
            match r {
                Ok((header, reader, writer)) => {
                    &&& reader.wf() && writer.wf()
                    &&& reader.session.wf()
                    &&& exists|ts: u64| reader.session.made_from(&self.accounts@[0],
                        reader.session.request_key@, reader.session.request_iv@, ts)
                    &&& exists|padding: Seq<u8>| padding.len() < 16
                        && reader.session.spec_request_header(self.security, conn@, padding) == Ok::<Seq<u8>, RequestHeaderError>(header@)
                    &&& reader.state is ReadHeader && reader.read_buf@.len() == 0
                    &&& reader.shake.source() == reader.session.response_iv@ && reader.shake.position() == 0
                    &&& reader.crypter.made_from(self.security, reader.session.response_key@, reader.session.response_key@, reader.session.response_iv@)
                    &&& writer.shake.source() == reader.session.request_iv@ && writer.shake.position() == 0
                    &&& writer.crypter.made_from(self.security, reader.session.response_key@, reader.session.request_key@, reader.session.request_iv@)
                },
                Err(StartError::Header(e)) => request_header_error(self.security, conn@) == Some(e),
                Err(StartError::Clock) => true,
            },
            request_header_error(self.security, conn@) is Some ==> r is Err,
    {
        let user = &self.accounts[0];
        let session = match ClientSession::new(user) {
            Ok(s) => s,
            Err(_) => return Err(StartError::Clock),
        };
        let header = match session.encode_request_header(self.security, conn) {
            Ok(h) => h,
            Err(e) => return Err(StartError::Header(e)),
        };
        let writer = ChunkWriter::new(&session, self.security);
        let reader = ChunkReader::new(session, self.security);
        Ok((header, reader, writer))
    }
}

} // verus!
