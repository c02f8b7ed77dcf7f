//! The ShadowsocksR `auth_aes128_md5` / `auth_aes128_sha1` protocols.
//!
//! The first write is preceded by an authentication header; every write is
//! cut into chunks of at most `PACK_UNIT_SIZE` bytes, each framed as
//!
//! ```text
//! +------+------+--------------+---------+------+
//! | size | HMAC | random bytes | payload | HMAC |
//! +------+------+--------------+---------+------+
//! |  2   |  2   |   variable   |  size-  |  4   |
//! |      |      |              | rnd - 8 |      |
//! +------+------+--------------+---------+------+
//! ```
//!
//! where the first random byte holds the number of random bytes (or 255,
//! followed by that number as two little-endian bytes, when it is 128 or
//! more). Reading strips the same framing off the server's replies.
use vstd::prelude::*;
use crate::plumber::{Plumber, ProcessorKind};
use crate::bytes::{le_bytes, push_le, push_slice, copy_range};
use crate::crypto::{
    HashKind, sign, sign_bytes, digest, hash_bytes, random_below, random_u32, random_bytes,
    aes128_block, aes128_encrypt_block, base64_encode_standard, base64_standard_text, evp_bytes_to_key,
    spec_evp_bytes_to_key,
};
use crate::utils::{ClockError, unix_ts};
use super::handshake::{ShadowsocksClientHandshakeProcessor, spec_header_len};

verus! {

/// Registers the processor as `ssr_auth_client`.
pub fn register(plumber: &mut Plumber)
    ensures
        final(plumber)@ == old(plumber)@.push(("ssr_auth_client"@, ProcessorKind::SsrAuthClient)),
{
    plumber.register("ssr_auth_client", ProcessorKind::SsrAuthClient);
}

/// The largest payload of one chunk.
pub const PACK_UNIT_SIZE: usize = 2000;

/// The client and connection identifiers that the authentication header
/// carries. Connection identifiers count up from a random start; when they
/// approach the top of their range both are drawn anew.
#[derive(Debug)]
pub struct SsrIds {
    pub client_id: u32,
    pub connection_id: u32,
}

/// Connection identifiers are renewed once they reach this value.
pub open spec fn connection_id_limit() -> u32 {
    0xFF00_0000
}

impl SsrIds {
    /// The identifiers never pass the renewal threshold.
    pub open spec fn wf(&self) -> bool {
        self.connection_id <= connection_id_limit()
    }

    /// Fresh identifiers: a random client id and a random connection id
    /// below `0xFFFFFF`.
    pub fn new() -> (r: SsrIds)
        ensures
            r.wf(),
            r.connection_id < 0xFF_FFFF,
    {
        let mut me = SsrIds { client_id: 0, connection_id: 0 };
        me.reset();
        me
    }

    /// Draws a new random client id and a random connection id below
    /// `0xFFFFFF`.
    pub fn reset(&mut self)
        ensures
            final(self).connection_id < 0xFF_FFFF,
    {
        self.client_id = random_u32();
        self.connection_id = random_below(0xFF_FFFF);
    }

    /// The identifiers of a new connection: the connection id goes up by
    /// one, after a renewal where it has reached `0xFF000000`.
    pub fn new_connection(&mut self) -> (r: (u32, u32))
        requires
            old(self).wf(),
        ensures
            final(self).wf(),
            r == (final(self).client_id, final(self).connection_id),
            r.1 >= 1,
            old(self).connection_id < connection_id_limit() ==> {
                &&& final(self).client_id == old(self).client_id
                &&& final(self).connection_id == old(self).connection_id + 1
            },
            old(self).connection_id >= connection_id_limit() ==> final(self).connection_id <= 0xFF_FFFF,
    {
        if self.connection_id >= 0xFF00_0000 {
            self.reset();
        }
        self.connection_id = self.connection_id + 1;
        (self.client_id, self.connection_id)
    }
}

/// The two flavours of the protocol, by the digest their HMACs use.
#[derive(Debug, Clone, Copy, PartialEq, Eq, Structural)]
pub enum SsrClientAuthType {
    AuthAes128Md5,
    AuthAes128Sha1,
}

impl SsrClientAuthType {
    pub open spec fn spec_hash_kind(self) -> HashKind {
        match self {
            SsrClientAuthType::AuthAes128Md5 => HashKind::Md5,
            SsrClientAuthType::AuthAes128Sha1 => HashKind::Sha1,
        }
    }

    /// The digest of the protocol.
    pub fn hash_kind(&self) -> (r: HashKind)
        ensures
            r == self.spec_hash_kind(),
    {
        match self {
            SsrClientAuthType::AuthAes128Md5 => HashKind::Md5,
            SsrClientAuthType::AuthAes128Sha1 => HashKind::Sha1,
        }
    }
}

/// The configuration of the auth client: an optional user id and user key.
#[derive(Debug, Clone)]
pub struct SsrClientAuthConfig {
    pub user_id: Option<u32>,
    pub protocol: SsrClientAuthType,
    pub user_key: Option<String>,
}

/// The auth client of one configured outbound: its identifiers and keys.
#[derive(Debug)]
pub struct SsrClientAuthProcessor {
    pub ids: SsrIds,
    pub user_id: Option<u32>,
    pub user_key: Option<Vec<u8>>,
    pub protocol: SsrClientAuthType,
}

/// Why an auth stream cannot be set up.
#[derive(Debug, Clone, Copy, PartialEq, Eq, Structural)]
pub enum AuthSetupError {
    /// The cipher below has not published its key.
    KeyNotFound,
    /// The cipher below has not published its IV.
    WriteIvNotFound,
}

impl SsrClientAuthProcessor {
    /// Sets up the processor: the user key, if configured, is hashed with
    /// the protocol's digest.
    pub fn from_config(config: &SsrClientAuthConfig) -> (r: Self)
        ensures
            r.ids.wf(),
            r.user_id == config.user_id,
            r.protocol == config.protocol,
            match config.user_key {
                Some(k) => r.user_key matches Some(h)
                    && h@ == digest(config.protocol.spec_hash_kind(), vstd::utf8::encode_utf8(k@)),
                None => r.user_key is None,
            },
    {
        let user_key = match &config.user_key {
            Some(key) => Some(hash_bytes(config.protocol.hash_kind(), key.as_str().as_bytes())),
            None => None,
        };
        SsrClientAuthProcessor {
            ids: SsrIds::new(),
            user_id: config.user_id,
            protocol: config.protocol,
            user_key,
        }
    }

    /// The identifiers of a new connection.
    pub fn new_connection(&mut self) -> (r: (u32, u32))
        requires
            old(self).ids.wf(),
        ensures
            final(self).ids.wf(),
            r == (final(self).ids.client_id, final(self).ids.connection_id),
            old(self).ids.connection_id < connection_id_limit() ==> final(self).ids.client_id == old(self).ids.client_id
                && final(self).ids.connection_id == old(self).ids.connection_id + 1,
            final(self).user_id == old(self).user_id,
            final(self).user_key == old(self).user_key,
            final(self).protocol == old(self).protocol,
    {
        self.ids.new_connection()
    }

    /// The stream state for a connection whose cipher published `write_key`
    /// and `write_iv`: the user key is the configured one, or else the
    /// cipher's key.
    pub fn new_stream(&self, write_key: Option<&[u8]>, write_iv: Option<&[u8]>) -> (r: Result<AuthAes128ClientStream, AuthSetupError>)
        ensures
            write_key is None ==> r == Err::<AuthAes128ClientStream, AuthSetupError>(AuthSetupError::KeyNotFound),
            write_key is Some && write_iv is None ==> r == Err::<AuthAes128ClientStream, AuthSetupError>(AuthSetupError::WriteIvNotFound),
            r matches Ok(st) ==> {
                &&& write_key matches Some(k)
                &&& write_iv matches Some(iv)
                &&& st.write_key@ == k@
                &&& st.write_iv@ == iv@
                &&& st.user_key@ == (match self.user_key { Some(u) => u@, None => k@ })
                &&& st.hash_kind == self.protocol.spec_hash_kind()
                &&& st.user_id == self.user_id
                &&& st.write_chunk_id == 0
                &&& !st.header_sent
                &&& st.last_write_len == 0
                &&& st.reader@ == DeframeState::Size(Seq::empty())
            },
            write_key is Some && write_iv is Some ==> r is Ok,
    {
        let write_key = match write_key {
            Some(k) => k,
            None => return Err(AuthSetupError::KeyNotFound),
        };
        let write_iv = match write_iv {
            Some(iv) => iv,
            None => return Err(AuthSetupError::WriteIvNotFound),
        };
        let user_key = match &self.user_key {
            Some(u) => copy_range(u.as_slice(), 0, u.len()),
            None => copy_range(write_key, 0, write_key.len()),
        };
        Ok(AuthAes128ClientStream::new(
            user_key,
            copy_range(write_key, 0, write_key.len()),
            self.protocol.hash_kind(),
            copy_range(write_iv, 0, write_iv.len()),
            self.user_id,
        ))
    }
}

/// The largest number of random bytes for a chunk of `len` payload bytes.
pub open spec fn rnd_len_max(len: nat) -> nat {
    if len > 1100 {
        127
    } else if len > 900 {
        255
    } else if len > 400 {
        511
    } else {
        1023
    }
}

/// Whether a chunk is padded with a single random byte only: when it is
/// large, the previous write was large, or the whole write is 4 KiB or more.
pub open spec fn rnd_len_minimal(len: nat, last_write_len: nat, full_len: nat) -> bool {
    len > 1300 || last_write_len > 1300 || full_len >= 4096
}

/// The number of random bytes that a chunk may carry.
pub open spec fn rnd_len_allowed(len: nat, last_write_len: nat, full_len: nat, n: nat) -> bool {
    if rnd_len_minimal(len, last_write_len, full_len) {
        n == 1
    } else {
        1 <= n <= rnd_len_max(len)
    }
}

/// The random-byte count for a chunk, given a draw `r` below the maximum.
pub fn rnd_len_from_draw(len: usize, last_write_len: usize, full_len: usize, r: u32) -> (n: usize)
    requires
        r < rnd_len_max(len as nat),
    ensures
        n == (if rnd_len_minimal(len as nat, last_write_len as nat, full_len as nat) { 1 } else { r + 1 }),
        rnd_len_allowed(len as nat, last_write_len as nat, full_len as nat, n as nat),
{
    if len > 1300 || last_write_len > 1300 || full_len >= 4096 {
        return 1;
    }
    r as usize + 1
}

/// The random-byte count of a chunk, read from the first three random bytes:
/// one byte, or 255 followed by the count as two little-endian bytes.
pub open spec fn spec_parse_rnd_len(b: Seq<u8>) -> nat {
    if b[0] == 255 {
        (b[1] + 256 * b[2]) as nat
    } else {
        b[0] as nat
    }
}

/// Reads the random-byte count from the first three random bytes.
pub fn parse_rnd_len(buf: &[u8]) -> (n: usize)
    requires
        buf@.len() >= 3,
    ensures
        n == spec_parse_rnd_len(buf@),
{
    if buf[0] == 255 {
        let lo = buf[1] as u32;
        let hi = buf[2] as u32;
        assert(lo | (hi << 8) == lo + 256 * hi) by (bit_vector)
            requires
                lo < 256,
                hi < 256,
        ;
        (lo | (hi << 8)) as usize
    } else {
        buf[0] as usize
    }
}


/// The random bytes of a chunk as sent: the drawn bytes `rand`, with their
/// count written over the first one (or over the first three, as 255 and
/// the count little-endian, when it is 128 or more).
pub open spec fn rnd_field(rand: Seq<u8>) -> Seq<u8> {
    let n = rand.len();
    if n < 128 {
        rand.update(0, n as u8)
    } else {
        rand.update(0, 255u8).update(1, (n % 256) as u8).update(2, (n / 256 % 256) as u8)
    }
}

/// The key of the HMACs of chunk number `chunk_id`.
pub open spec fn chunk_hmac_key(user_key: Seq<u8>, chunk_id: u32) -> Seq<u8> {
    user_key + le_bytes(chunk_id as int, 4)
}

/// The frame of chunk number `chunk_id` carrying `payload`, padded with the
/// random bytes `rand`.
pub open spec fn spec_pack_chunk(
    user_key: Seq<u8>,
    chunk_id: u32,
    kind: HashKind,
    rand: Seq<u8>,
    payload: Seq<u8>,
) -> Seq<u8> {
    let key = chunk_hmac_key(user_key, chunk_id);
    let size = le_bytes(((2 + 2 + rand.len() + payload.len() + 4) % 0x1_0000) as int, 2);
    let body = size + first_bytes(sign(kind, key, size), 2) + rnd_field(rand) + payload;
    body + first_bytes(sign(kind, key, body), 4)
}

/// The first `n` bytes of `s`.
pub open spec fn first_bytes(s: Seq<u8>, n: nat) -> Seq<u8> {
    Seq::new(n, |i: int| s[i])
}

/// Whether `rand` can pad a chunk: at least one byte, and at least three
/// when its count takes the long form.
pub open spec fn rand_fits(rand: Seq<u8>) -> bool {
    1 <= rand.len() < 0x1_0000 && (rand.len() < 128 || rand.len() >= 3)
}

/// Frames one chunk, with the given random padding.
pub fn pack_chunk_with(
    user_key: &[u8],
    chunk_id: u32,
    kind: HashKind,
    rand: &[u8],
    payload: &[u8],
) -> (r: Vec<u8>)
    requires
        rand_fits(rand@),
        payload@.len() <= PACK_UNIT_SIZE,
    ensures
        r@ == spec_pack_chunk(user_key@, chunk_id, kind, rand@, payload@),
{
    let rand_len = rand.len();
    let mut hmac_key: Vec<u8> = Vec::new();
    push_slice(&mut hmac_key, user_key);
    push_le(&mut hmac_key, chunk_id as u128, 4);
    assert(hmac_key@ == chunk_hmac_key(user_key@, chunk_id));

    let pack_len: u64 = 2 + 2 + rand_len as u64 + payload.len() as u64 + 4;
    let mut ret: Vec<u8> = Vec::new();
    push_le(&mut ret, (pack_len % 0x1_0000) as u128, 2);
    let ghost size = ret@;
    let size_hmac = sign_bytes(kind, hmac_key.as_slice(), ret.as_slice());
    ret.push(size_hmac[0]);
    ret.push(size_hmac[1]);
    assert(ret@ == size + first_bytes(sign(kind, hmac_key@, size), 2));
    let ghost head = ret@;

    let mut rnd = copy_range(rand, 0, rand_len);
    assert(rnd@ == rand@);
    if rand_len < 128 {
        rnd.set(0, rand_len as u8);
    } else {
        assert((rand_len & 0xFF) == rand_len % 256) by (bit_vector);
        assert((rand_len >> 8) == rand_len / 256) by (bit_vector);
        rnd.set(0, 255);
        rnd.set(1, (rand_len & 0xFF) as u8);
        rnd.set(2, (rand_len >> 8) as u8);
    }
    assert(rnd@ == rnd_field(rand@));
    push_slice(&mut ret, rnd.as_slice());
    push_slice(&mut ret, payload);
    let ghost body = ret@;
    assert(body == head + rnd_field(rand@) + payload@);
    let pack_hmac = sign_bytes(kind, hmac_key.as_slice(), ret.as_slice());
    ret.push(pack_hmac[0]);
    ret.push(pack_hmac[1]);
    ret.push(pack_hmac[2]);
    ret.push(pack_hmac[3]);
    assert(first_bytes(sign(kind, hmac_key@, body), 4) == seq![pack_hmac@[0], pack_hmac@[1], pack_hmac@[2], pack_hmac@[3]]);
    ret
}


/// The number of chunks a write of `len` bytes is cut into.
pub open spec fn unit_count(len: nat) -> nat {
    ((len + 1999) / 2000) as nat
}

/// Chunk `i` of a write: the `i`-th run of `PACK_UNIT_SIZE` bytes (the last
/// one shorter).
pub open spec fn unit_at(buf: Seq<u8>, i: nat) -> Seq<u8> {
    let end = if 2000 * (i + 1) <= buf.len() { 2000 * (i + 1) } else { buf.len() };
    buf.subrange((2000 * i) as int, end as int)
}

/// `frame` is chunk number `chunk_id` carrying `payload`, padded with a
/// random byte count that the write may use.
pub open spec fn is_chunk_frame(
    user_key: Seq<u8>,
    chunk_id: u32,
    kind: HashKind,
    last_write_len: nat,
    full_len: nat,
    payload: Seq<u8>,
    frame: Seq<u8>,
) -> bool {
    exists|rand: Seq<u8>|
        rnd_len_allowed(payload.len(), last_write_len, full_len, rand.len())
            && #[trigger] spec_pack_chunk(user_key, chunk_id, kind, rand, payload) == frame
}

/// The client side of an auth_aes128 stream: what it needs to frame writes
/// and to strip the framing off reads.
pub struct AuthAes128ClientStream {
    pub user_key: Vec<u8>,
    pub write_key: Vec<u8>,
    pub write_iv: Vec<u8>,
    pub hash_kind: HashKind,
    pub user_id: Option<u32>,
    pub write_chunk_id: u32,
    pub header_sent: bool,
    pub last_write_len: usize,
    pub reader: AuthDeframer,
}

impl AuthAes128ClientStream {
    pub fn new(
        user_key: Vec<u8>,
        write_key: Vec<u8>,
        hash_kind: HashKind,
        write_iv: Vec<u8>,
        user_id: Option<u32>,
    ) -> (r: Self)
        ensures
            r.user_key@ == user_key@,
            r.write_key@ == write_key@,
            r.write_iv@ == write_iv@,
            r.hash_kind == hash_kind,
            r.user_id == user_id,
            r.write_chunk_id == 0,
            !r.header_sent,
            r.last_write_len == 0,
            r.reader@ == DeframeState::Size(Seq::empty()),
    {
        AuthAes128ClientStream {
            user_key,
            write_key,
            write_iv,
            hash_kind,
            user_id,
            write_chunk_id: 0,
            header_sent: false,
            last_write_len: 0,
            reader: AuthDeframer::new(),
        }
    }

    /// Draws the number of random bytes for a chunk of `len` payload bytes
    /// in a write of `full_len` bytes.
    pub fn gen_rnd_len(&self, len: usize, full_len: usize) -> (n: usize)
        ensures
            rnd_len_allowed(len as nat, self.last_write_len as nat, full_len as nat, n as nat),
    {
        if len > 1300 || self.last_write_len > 1300 || full_len >= 4096 {
            return 1;
        }
        let len_max: u32 = if len > 1100 {
            127
        } else if len > 900 {
            255
        } else if len > 400 {
            511
        } else {
            1023
        };
        rnd_len_from_draw(len, self.last_write_len, full_len, random_below(len_max))
    }

    /// Builds the authentication header ahead of `data`, the first bytes of
    /// the connection, with fresh identifiers from `ids`.
    pub fn pack_auth_data(&self, ids: &mut SsrIds, data: &[u8]) -> (r: Result<Vec<u8>, ClockError>)
        requires
            old(ids).wf(),
            data@.len() + 35 + 1023 < 0x1_0000,
        ensures
            final(ids).wf(),
            r is Err ==> *final(ids) == *old(ids),
            r is Ok ==> final(ids).connection_id >= 1
                && (old(ids).connection_id < connection_id_limit() ==> {
                    &&& final(ids).client_id == old(ids).client_id
                    &&& final(ids).connection_id == old(ids).connection_id + 1
                }),
            r matches Ok(v) ==> exists|first: u8, uid: u32, utc: u32, rand: Seq<u8>|
                auth_draws_allowed(self.user_id, data@.len() as nat, uid, rand)
                && v@ == #[trigger] spec_auth_header(
                    self.user_key@, self.write_key@, self.write_iv@, self.hash_kind,
                    first, uid, utc, final(ids).client_id, final(ids).connection_id, rand, data@,
                )
                && v@.len() == 35 + rand.len() + data@.len(),
    {
        let rnd_len = if data.len() > 400 { random_below(512) } else { random_below(1024) } as usize;
        let first = random_below(256) as u8;
        let uid = match self.user_id {
            Some(id) => id,
            None => random_u32(),
        };
        let now = unix_ts()?;
        let utc = (now % 0x1_0000_0000) as u32;
        let conn_ids = ids.new_connection();
        let rand = random_bytes(rnd_len);
        let r = pack_auth_data_with(
            self.user_key.as_slice(), self.write_key.as_slice(), self.write_iv.as_slice(), self.hash_kind,
            first, uid, utc, conn_ids, rand.as_slice(), data,
        );
        assert(auth_draws_allowed(self.user_id, data@.len() as nat, uid, rand@));
        Ok(r)
    }

    /// Turns one write into the frames to send: on the first write, the
    /// authentication header carrying the destination header and up to 30
    /// more bytes, then the rest in chunks; afterwards, chunks only.
    pub fn prepare_write(&mut self, ids: &mut SsrIds, buf: &[u8]) -> (r: Result<Vec<Vec<u8>>, WriteError>)
        requires
            old(ids).wf(),
            !(buf@.len() >= 4 && buf@[0] == 3 && buf@[1] > 251),
            buf@.len() < 0x1_0000_0000,
            old(self).write_chunk_id + unit_count(buf@.len() as nat) <= u32::MAX,
        ensures
            final(ids).wf(),
            final(self).user_key == old(self).user_key,
            final(self).write_key == old(self).write_key,
            final(self).write_iv == old(self).write_iv,
            final(self).hash_kind == old(self).hash_kind,
            final(self).user_id == old(self).user_id,
            final(self).reader == old(self).reader,
            final(self).header_sent,
            old(self).header_sent ==> r is Ok,
            r matches Ok(frames) ==> final(self).last_write_len == buf@.len(),
            r matches Ok(frames) ==> old(self).header_sent ==>
                write_frames(*old(self), final(self).write_chunk_id, buf@, 0, frames_view(frames@)),
            r matches Ok(frames) ==> !old(self).header_sent ==>
                exists|d: nat| #![trigger buf@.take(d as int)] first_write_frames(
                    *old(self), final(self).write_chunk_id, final(ids).client_id, final(ids).connection_id,
                    buf@, d, frames_view(frames@)),
            r matches Err(WriteError::Header(_)) ==> !old(self).header_sent && spec_header_len(buf@) is Err,
            !old(self).header_sent && spec_header_len(buf@) is Err ==> r matches Err(WriteError::Header(_)),
    {
        let full_len = buf.len();
        if self.header_sent {
            let frames = self.pack_data(buf);
            self.last_write_len = full_len;
            assert(buf@.skip(0) == buf@);
            assert(frames_view(frames@).len() == frames@.len());
            assert forall|i: int| 0 <= i < frames@.len() implies frames_view(frames@)[i] == #[trigger] frames@[i]@ by {}
            return Ok(frames);
        }
        self.header_sent = true;
        let header_len = match ShadowsocksClientHandshakeProcessor::header_len(buf) {
            Ok(n) => n,
            Err(e) => return Err(WriteError::Header(e)),
        };
        let extra = random_below(31) as usize;
        let divide_pos = if full_len < header_len + extra { full_len } else { header_len + extra };
        let head_data = copy_range(buf, 0, divide_pos);
        assert(head_data@ == buf@.take(divide_pos as int));
        let header = match self.pack_auth_data(ids, head_data.as_slice()) {
            Ok(h) => h,
            Err(e) => return Err(WriteError::Clock(e)),
        };
        let rest = copy_range(buf, divide_pos, full_len);
        assert(rest@ == buf@.skip(divide_pos as int));
        assert(unit_count(rest@.len() as nat) <= unit_count(buf@.len() as nat)) by {
            assert((rest@.len() + 1999) / 2000 <= (buf@.len() + 1999) / 2000) by (nonlinear_arith)
                requires rest@.len() <= buf@.len();
        }
        let ghost before = *self;
        let mut chunks = self.pack_data(rest.as_slice());
        let mut frames: Vec<Vec<u8>> = Vec::new();
        frames.push(header);
        frames.append(&mut chunks);
        self.last_write_len = full_len;
        proof {
            let fv = frames_view(frames@);
            assert(fv[0] == header@);
            assert forall|i: int| 0 <= i < fv.drop_first().len() implies #[trigger] fv.drop_first()[i] == frames@[i + 1]@ by {}
            assert(write_frames(*old(self), self.write_chunk_id, buf@, divide_pos as nat, fv.drop_first()));
            assert(first_write_frames(*old(self), self.write_chunk_id, ids.client_id, ids.connection_id, buf@, divide_pos as nat, fv));
            assert(exists|d: nat| #[trigger] first_write_frames(*old(self), self.write_chunk_id, ids.client_id, ids.connection_id, buf@, d, frames_view(frames@)));
            assert(!old(self).header_sent);
            assert(self.last_write_len == buf@.len());
        }
        Ok(frames)
    }

    /// Frames the next chunk of a write of `full_len` bytes.
    pub fn pack_chunk(&mut self, payload: &[u8], full_len: usize) -> (r: Vec<u8>)
        requires
            old(self).write_chunk_id < u32::MAX,
            payload@.len() <= PACK_UNIT_SIZE,
        ensures
            final(self).write_chunk_id == old(self).write_chunk_id + 1,
            final(self).user_key == old(self).user_key,
            final(self).write_key == old(self).write_key,
            final(self).write_iv == old(self).write_iv,
            final(self).hash_kind == old(self).hash_kind,
            final(self).user_id == old(self).user_id,
            final(self).header_sent == old(self).header_sent,
            final(self).last_write_len == old(self).last_write_len,
            final(self).reader == old(self).reader,
            is_chunk_frame(
                old(self).user_key@,
                final(self).write_chunk_id,
                old(self).hash_kind,
                old(self).last_write_len as nat,
                full_len as nat,
                payload@,
                r@,
            ),
    {
        self.write_chunk_id = self.write_chunk_id + 1;
        let rand_len = self.gen_rnd_len(payload.len(), full_len);
        let rand = random_bytes(rand_len);
        let r = pack_chunk_with(self.user_key.as_slice(), self.write_chunk_id, self.hash_kind, rand.as_slice(), payload);
        assert(spec_pack_chunk(self.user_key@, self.write_chunk_id, self.hash_kind, rand@, payload@) == r@);
        r
    }

    /// Cuts a write into chunks of at most `PACK_UNIT_SIZE` bytes and frames
    /// each.
    pub fn pack_data(&mut self, buf: &[u8]) -> (r: Vec<Vec<u8>>)
        requires
            old(self).write_chunk_id + unit_count(buf@.len()) <= u32::MAX,
        ensures
            final(self).write_chunk_id == old(self).write_chunk_id + unit_count(buf@.len()),
            final(self).user_key == old(self).user_key,
            final(self).write_key == old(self).write_key,
            final(self).write_iv == old(self).write_iv,
            final(self).hash_kind == old(self).hash_kind,
            final(self).user_id == old(self).user_id,
            final(self).header_sent == old(self).header_sent,
            final(self).last_write_len == old(self).last_write_len,
            final(self).reader == old(self).reader,
            r@.len() == unit_count(buf@.len()),
            forall|i: int| 0 <= i < r@.len() ==> is_chunk_frame(
                old(self).user_key@,
                (old(self).write_chunk_id + i + 1) as u32,
                old(self).hash_kind,
                old(self).last_write_len as nat,
                buf@.len() as nat,
                unit_at(buf@, i as nat),
                #[trigger] r@[i]@,
            ),
    {
        let full_len = buf.len();
        let mut chunks: Vec<Vec<u8>> = Vec::new();
        let mut off: usize = 0;
        while full_len - off > PACK_UNIT_SIZE
            invariant
                full_len == buf@.len(),
                off <= full_len,
                off == 2000 * chunks@.len(),
                self.write_chunk_id == old(self).write_chunk_id + chunks@.len(),
                old(self).write_chunk_id + unit_count(buf@.len()) <= u32::MAX,
                chunks@.len() < unit_count(buf@.len()) || off == full_len,
                self.user_key == old(self).user_key,
                self.write_key == old(self).write_key,
                self.write_iv == old(self).write_iv,
                self.hash_kind == old(self).hash_kind,
                self.user_id == old(self).user_id,
                self.header_sent == old(self).header_sent,
                self.last_write_len == old(self).last_write_len,
                self.reader == old(self).reader,
                forall|i: int| 0 <= i < chunks@.len() ==> is_chunk_frame(
                    old(self).user_key@,
                    (old(self).write_chunk_id + i + 1) as u32,
                    old(self).hash_kind,
                    old(self).last_write_len as nat,
                    buf@.len() as nat,
                    unit_at(buf@, i as nat),
                    #[trigger] chunks@[i]@,
                ),
            decreases full_len - off,
        {
            let ghost k = chunks@.len();
            assert(unit_count(buf@.len()) > k + 1) by {
                assert(full_len >= 2000 * k + 2001);
                assert((full_len + 1999) / 2000 >= (2000 * k + 4000) / 2000) by (nonlinear_arith)
                    requires full_len >= 2000 * k + 2001;
                assert((2000 * k + 4000) / 2000 == k + 2) by (nonlinear_arith);
            }
            let unit = copy_range(buf, off, off + PACK_UNIT_SIZE);
            assert(unit@ == unit_at(buf@, k as nat));
            let frame = self.pack_chunk(unit.as_slice(), full_len);
            chunks.push(frame);
            off = off + PACK_UNIT_SIZE;
            assert(chunks@[k as int]@ == frame@);
        }
        let ghost k = chunks@.len();
        if off < full_len {
            assert(unit_count(buf@.len()) == k + 1) by {
                assert(2000 * k < full_len <= 2000 * k + 2000);
                assert((full_len + 1999) / 2000 == k + 1) by (nonlinear_arith)
                    requires 2000 * k < full_len <= 2000 * k + 2000;
            }
            let unit = copy_range(buf, off, full_len);
            assert(unit@ == unit_at(buf@, k as nat));
            let frame = self.pack_chunk(unit.as_slice(), full_len);
            chunks.push(frame);
            assert(chunks@[k as int]@ == frame@);
        } else {
            assert(unit_count(buf@.len()) == k) by {
                assert(full_len == 2000 * k);
                assert((2000 * k + 1999) / 2000 == k) by (nonlinear_arith);
            }
        }
        chunks
    }
}

/// The name of the protocol, which salts the key of the encrypted header.
pub open spec fn protocol_name(kind: HashKind) -> Seq<u8> {
    match kind {
        HashKind::Md5 => "auth_aes128_md5"@.map_values(|c: char| c as u8),
        HashKind::Sha1 => "auth_aes128_sha1"@.map_values(|c: char| c as u8),
    }
}

/// The key of the encrypted part of the header: derived from the Base64
/// text of the user key followed by the protocol name.
pub open spec fn header_enc_key(user_key: Seq<u8>, kind: HashKind) -> Seq<u8> {
    spec_evp_bytes_to_key(base64_standard_text(user_key) + protocol_name(kind), 16)
}

/// The authentication header sent ahead of the first bytes of a connection:
///
/// ```text
/// | random 1 | HMAC 6 | uid 4 | AES-128 (utc cid conn len rnd) 16 | HMAC 4 | random | data | HMAC 4 |
/// ```
///
/// The first two HMACs are keyed with the write IV followed by the write
/// key; the last with the user key.
pub open spec fn spec_auth_header(
    user_key: Seq<u8>,
    write_key: Seq<u8>,
    write_iv: Seq<u8>,
    kind: HashKind,
    first: u8,
    uid: u32,
    utc: u32,
    client_id: u32,
    connection_id: u32,
    rand: Seq<u8>,
    data: Seq<u8>,
) -> Seq<u8> {
    let k12 = write_iv + write_key;
    let pack_len = 7 + 24 + rand.len() + data.len() + 4;
    let part1 = seq![first] + first_bytes(sign(kind, k12, seq![first]), 6);
    let plain = le_bytes(utc as int, 4) + le_bytes(client_id as int, 4) + le_bytes(connection_id as int, 4)
        + le_bytes(pack_len as int, 2) + le_bytes(rand.len() as int, 2);
    let part2 = le_bytes(uid as int, 4) + first_bytes(aes128_block(header_enc_key(user_key, kind), plain), 16);
    let head = part1 + part2 + first_bytes(sign(kind, k12, part2), 4) + rand + data;
    head + first_bytes(sign(kind, user_key, head), 4)
}

fn protocol_name_bytes(kind: HashKind) -> (r: Vec<u8>)
    ensures
        r@ == protocol_name(kind),
{
    let name: &str = match kind {
        HashKind::Md5 => "auth_aes128_md5",
        HashKind::Sha1 => "auth_aes128_sha1",
    };
    proof {
        reveal_strlit("auth_aes128_md5");
        reveal_strlit("auth_aes128_sha1");
    }
    let chars = crate::text::chars_of(name);
    let mut r: Vec<u8> = Vec::new();
    let mut i: usize = 0;
    while i < chars.len()
        invariant
            i <= chars@.len(),
            chars@ == name@,
            r@ == name@.take(i as int).map_values(|c: char| c as u8),
        decreases chars.len() - i,
    {
        r.push(chars[i] as u8);
        i = i + 1;
        assert(r@ == name@.take(i as int).map_values(|c: char| c as u8));
    }
    assert(name@.take(i as int) == name@);
    r
}

fn push_first(out: &mut Vec<u8>, src: &[u8], n: usize)
    requires
        n <= src@.len(),
    ensures
        final(out)@ == old(out)@ + first_bytes(src@, n as nat),
{
    let mut i: usize = 0;
    while i < n
        invariant
            i <= n <= src@.len(),
            out@ == old(out)@ + first_bytes(src@, i as nat),
        decreases n - i,
    {
        out.push(src[i]);
        i = i + 1;
        assert(out@ == old(out)@ + first_bytes(src@, i as nat));
    }
}

/// Builds the authentication header, with the given random draws, time and
/// identifiers.
pub fn pack_auth_data_with(
    user_key: &[u8],
    write_key: &[u8],
    write_iv: &[u8],
    kind: HashKind,
    first: u8,
    uid: u32,
    utc: u32,
    ids: (u32, u32),
    rand: &[u8],
    data: &[u8],
) -> (r: Vec<u8>)
    requires
        7 + 24 + rand@.len() + data@.len() + 4 < 0x1_0000,
    ensures
        r@ == spec_auth_header(user_key@, write_key@, write_iv@, kind, first, uid, utc, ids.0, ids.1, rand@, data@),
        r@.len() == 35 + rand@.len() + data@.len(),
{
    let mut k12: Vec<u8> = Vec::new();
    push_slice(&mut k12, write_iv);
    push_slice(&mut k12, write_key);
    let pack_len = 7 + 24 + rand.len() + data.len() + 4;

    let mut ret: Vec<u8> = Vec::new();
    ret.push(first);
    let first_seq = [first];
    let tag1 = sign_bytes(kind, k12.as_slice(), &first_seq);
    assert(first_seq@ == seq![first]);
    push_first(&mut ret, tag1.as_slice(), 6);
    let ghost part1 = ret@;

    let mut plain: Vec<u8> = Vec::new();
    push_le(&mut plain, utc as u128, 4);
    push_le(&mut plain, ids.0 as u128, 4);
    push_le(&mut plain, ids.1 as u128, 4);
    push_le(&mut plain, pack_len as u128, 2);
    push_le(&mut plain, rand.len() as u128, 2);

    let mut key_raw = base64_encode_standard(user_key);
    let name = protocol_name_bytes(kind);
    push_slice(&mut key_raw, name.as_slice());
    let enc_key = evp_bytes_to_key(key_raw.as_slice(), 16);
    let enc = aes128_encrypt_block(enc_key.as_slice(), plain.as_slice());
    assert(enc@ =~= first_bytes(enc@, 16));

    let mut part2: Vec<u8> = Vec::new();
    push_le(&mut part2, uid as u128, 4);
    push_slice(&mut part2, enc.as_slice());
    let tag2 = sign_bytes(kind, k12.as_slice(), part2.as_slice());
    push_slice(&mut ret, part2.as_slice());
    push_first(&mut ret, tag2.as_slice(), 4);
    push_slice(&mut ret, rand);
    push_slice(&mut ret, data);
    let tag3 = sign_bytes(kind, user_key, ret.as_slice());
    push_first(&mut ret, tag3.as_slice(), 4);
    ret
}

/// The random draws that an authentication header may use: at most 511
/// random bytes ahead of more than 400 bytes of data, at most 1023
/// otherwise, and the user id where one is configured.
pub open spec fn auth_draws_allowed(user_id: Option<u32>, data_len: nat, uid: u32, rand: Seq<u8>) -> bool {
    &&& rand.len() < (if data_len > 400 { 512nat } else { 1024nat })
    &&& (user_id matches Some(id) ==> uid == id)
}

/// The bytes of each frame.
pub open spec fn frames_view(frames: Seq<Vec<u8>>) -> Seq<Seq<u8>> {
    frames.map_values(|f: Vec<u8>| f@)
}

/// Why a write could not be framed.
pub enum WriteError {
    /// The first write does not start with a complete destination header.
    Header(crate::utils::IoError),
    /// The clock is set before the Unix epoch.
    Clock(ClockError),
}

/// `frames` frame `buf` from byte `from` on as chunks numbered on from
/// where `st` stood, ending with chunk number `last_id`.
pub open spec fn write_frames(
    st: AuthAes128ClientStream,
    last_id: u32,
    buf: Seq<u8>,
    from: nat,
    frames: Seq<Seq<u8>>,
) -> bool {
    let rest = buf.skip(from as int);
    &&& frames.len() == unit_count(rest.len())
    &&& last_id == st.write_chunk_id + unit_count(rest.len())
    &&& forall|i: int| 0 <= i < frames.len() ==> is_chunk_frame(
        st.user_key@,
        (st.write_chunk_id + i + 1) as u32,
        st.hash_kind,
        st.last_write_len as nat,
        rest.len(),
        unit_at(rest, i as nat),
        #[trigger] frames[i],
    )
}

/// The frames of the first write: the authentication header carrying the
/// first `d` bytes, where `d` is the destination header's length plus up
/// to 30 (and at most all of the write), then the rest in chunks.
pub open spec fn first_write_frames(
    old_st: AuthAes128ClientStream,
    last_id: u32,
    client_id: u32,
    connection_id: u32,
    buf: Seq<u8>,
    d: nat,
    frames: Seq<Seq<u8>>,
) -> bool {
    &&& spec_header_len(buf) matches Ok(hl) && hl <= d <= buf.len() && (d < buf.len() ==> d <= hl + 30)
    &&& frames.len() >= 1
    &&& exists|first: u8, uid: u32, utc: u32, rand: Seq<u8>|
        auth_draws_allowed(old_st.user_id, d, uid, rand)
        && frames[0] == #[trigger] spec_auth_header(
            old_st.user_key@, old_st.write_key@, old_st.write_iv@, old_st.hash_kind,
            first, uid, utc, client_id, connection_id, rand, buf.take(d as int),
        )
    &&& write_frames(old_st, last_id, buf, d, frames.drop_first())
}

/// Where the reader stands in the framing of the incoming stream.
pub enum DeframeState {
    /// Collecting the first seven bytes of a chunk.
    Size(Seq<u8>),
    /// Skipping random bytes (how many are left), before a payload of the
    /// given length.
    Random(nat, nat),
    /// Passing on payload bytes (how many are left).
    Data(nat),
    /// Skipping the trailing HMAC (how many bytes are left).
    Hmac(nat),
}

/// The chunk length in the first two header bytes.
pub open spec fn header_total(h: Seq<u8>) -> nat {
    (h[0] + 256 * h[1]) as nat
}

/// The random-byte count in header bytes 4 to 6.
pub open spec fn header_rnd(h: Seq<u8>) -> nat {
    spec_parse_rnd_len(h.subrange(4, 7))
}

/// A chunk header whose counts fit together: at least one random byte, and
/// a length that covers the random bytes and both HMACs.
pub open spec fn header_sound(h: Seq<u8>) -> bool {
    header_rnd(h) >= 1 && header_total(h) >= header_rnd(h) + 8
}

/// Moves past states with nothing left to do.
pub open spec fn settle(st: DeframeState) -> DeframeState {
    match st {
        DeframeState::Random(r, p) => if r != 0 {
            st
        } else if p == 0 {
            DeframeState::Hmac(4)
        } else {
            DeframeState::Data(p)
        },
        DeframeState::Data(p) => if p == 0 { DeframeState::Hmac(4) } else { st },
        DeframeState::Hmac(k) => if k == 0 { DeframeState::Size(Seq::empty()) } else { st },
        _ => st,
    }
}

/// One byte inside a chunk, past its header.
pub open spec fn body_step(st: DeframeState, b: u8) -> (DeframeState, Seq<u8>) {
    match st {
        DeframeState::Random(r, p) => (settle(DeframeState::Random((r - 1) as nat, p)), Seq::empty()),
        DeframeState::Data(p) => (settle(DeframeState::Data((p - 1) as nat)), seq![b]),
        DeframeState::Hmac(k) => (settle(DeframeState::Hmac((k - 1) as nat)), Seq::empty()),
        DeframeState::Size(h) => (DeframeState::Size(h.push(b)), Seq::empty()),
    }
}

/// One byte of the stream: the new state and the payload bytes it yields,
/// or `None` at a header whose counts do not fit together. Once seven
/// header bytes are in, the last two are taken again as the first bytes
/// past the header's first random byte.
pub open spec fn step(st: DeframeState, b: u8) -> Option<(DeframeState, Seq<u8>)> {
    match st {
        DeframeState::Size(h) => {
            let h2 = h.push(b);
            if h2.len() < 7 {
                Some((DeframeState::Size(h2), Seq::empty()))
            } else if !header_sound(h2) {
                None
            } else {
                let rnd = header_rnd(h2);
                let st1 = settle(DeframeState::Random((rnd - 1) as nat, (header_total(h2) - rnd - 8) as nat));
                let (st2, o2) = body_step(st1, h2[5]);
                let (st3, o3) = body_step(st2, h2[6]);
                Some((st3, o2 + o3))
            }
        },
        _ => Some(body_step(st, b)),
    }
}

/// The state after reading `s` from `st`, and the payload bytes yielded
/// on the way; `None` if a header on the way does not fit together.
pub open spec fn run(st: DeframeState, s: Seq<u8>) -> Option<(DeframeState, Seq<u8>)>
    decreases s.len(),
{
    if s.len() == 0 {
        Some((st, Seq::empty()))
    } else {
        match run(st, s.drop_last()) {
            None => None,
            Some((st1, o1)) => match step(st1, s.last()) {
                None => None,
                Some((st2, o2)) => Some((st2, o1 + o2)),
            },
        }
    }
}

/// The state of the reader proper: the phase it is in, and the header bytes
/// collected so far.
pub enum ReadState {
    Size,
    Random { rnd_len: usize, payload_len: usize },
    Data { payload_len: usize },
    Hmac { remaining: usize },
}

/// Strips the chunk framing off the server's replies.
pub struct AuthDeframer {
    pub state: ReadState,
    pub header: Vec<u8>,
}

impl View for AuthDeframer {
    type V = DeframeState;

    open spec fn view(&self) -> DeframeState {
        match self.state {
            ReadState::Size => DeframeState::Size(self.header@),
            ReadState::Random { rnd_len, payload_len } => DeframeState::Random(rnd_len as nat, payload_len as nat),
            ReadState::Data { payload_len } => DeframeState::Data(payload_len as nat),
            ReadState::Hmac { remaining } => DeframeState::Hmac(remaining as nat),
        }
    }
}

/// A state that the reader can be in between bytes: fewer than seven header
/// bytes, and no phase with nothing left to do.
pub open spec fn settled(st: DeframeState) -> bool {
    match st {
        DeframeState::Size(h) => h.len() < 7,
        DeframeState::Random(r, p) => r > 0,
        DeframeState::Data(p) => p > 0,
        DeframeState::Hmac(k) => 0 < k <= 4,
    }
}

impl AuthDeframer {
    pub fn new() -> (r: Self)
        ensures
            r@ == DeframeState::Size(Seq::empty()),
    {
        AuthDeframer { state: ReadState::Size, header: Vec::new() }
    }

    pub open spec fn wf(&self) -> bool {
        settled(self@) && (!(self.state is Size) ==> self.header@.len() == 0)
    }

    fn settle_exec(&mut self)
        requires
            !(old(self).state is Size),
            old(self).header@.len() == 0,
        ensures
            final(self)@ == settle(old(self)@),
            final(self).header@.len() == 0,
    {
        let next = match &self.state {
            ReadState::Random { rnd_len, payload_len } => {
                if *rnd_len != 0 {
                    ReadState::Random { rnd_len: *rnd_len, payload_len: *payload_len }
                } else if *payload_len == 0 {
                    ReadState::Hmac { remaining: 4 }
                } else {
                    ReadState::Data { payload_len: *payload_len }
                }
            },
            ReadState::Data { payload_len } => {
                if *payload_len == 0 {
                    ReadState::Hmac { remaining: 4 }
                } else {
                    ReadState::Data { payload_len: *payload_len }
                }
            },
            ReadState::Hmac { remaining } => {
                if *remaining == 0 {
                    ReadState::Size
                } else {
                    ReadState::Hmac { remaining: *remaining }
                }
            },
            ReadState::Size => ReadState::Size,
        };
        self.state = next;
        assert(self.header@ == Seq::<u8>::empty());
    }

    fn body_byte(&mut self, b: u8, out: &mut Vec<u8>)
        requires
            !(old(self).state is Size),
            old(self).header@.len() == 0,
            settled(old(self)@),
        ensures
            final(self)@ == body_step(old(self)@, b).0,
            final(out)@ == old(out)@ + body_step(old(self)@, b).1,
            final(self).header@.len() == 0,
            settled(final(self)@),
    {
        match self.state {
            ReadState::Random { rnd_len, payload_len } => {
                self.state = ReadState::Random { rnd_len: rnd_len - 1, payload_len };
            },
            ReadState::Data { payload_len } => {
                out.push(b);
                self.state = ReadState::Data { payload_len: payload_len - 1 };
            },
            ReadState::Hmac { remaining } => {
                self.state = ReadState::Hmac { remaining: remaining - 1 };
            },
            ReadState::Size => {},
        }
        self.settle_exec();
    }

    /// Takes one byte of the stream.
    pub fn push_byte(&mut self, b: u8, out: &mut Vec<u8>)
        requires
            old(self).wf(),
            step(old(self)@, b) is Some,
        ensures
            final(self).wf(),
            final(self)@ == step(old(self)@, b).unwrap().0,
            final(out)@ == old(out)@ + step(old(self)@, b).unwrap().1,
    {
        match self.state {
            ReadState::Size => {
                self.header.push(b);
                if self.header.len() == 7 {
                    let ghost h = self.header@;
                    let total = self.header[0] as usize + 256 * self.header[1] as usize;
                    let rnd = parse_rnd_len(&[self.header[4], self.header[5], self.header[6]]);
                    assert(seq![h[4], h[5], h[6]] == h.subrange(4, 7));
                    let h5 = self.header[5];
                    let h6 = self.header[6];
                    self.header = Vec::new();
                    self.state = ReadState::Random { rnd_len: rnd - 1, payload_len: total - rnd - 8 };
                    self.settle_exec();
                    let ghost st1 = self@;
                    self.body_byte(h5, out);
                    self.body_byte(h6, out);
                    assert(out@ == old(out)@ + (body_step(st1, h5).1 + body_step(body_step(st1, h5).0, h6).1));
                }
            },
            _ => {
                self.body_byte(b, out);
            },
        }
    }

    /// Takes the bytes `data` of the stream, in order, and returns the
    /// payload bytes they complete.
    pub fn feed(&mut self, data: &[u8]) -> (r: Vec<u8>)
        requires
            old(self).wf(),
            run(old(self)@, data@) is Some,
        ensures
            final(self).wf(),
            final(self)@ == run(old(self)@, data@).unwrap().0,
            r@ == run(old(self)@, data@).unwrap().1,
    {
        let mut out: Vec<u8> = Vec::new();
        let mut i: usize = 0;
        while i < data.len()
            invariant
                i <= data@.len(),
                self.wf(),
                run(old(self)@, data@) is Some,
                run(old(self)@, data@.take(i as int)) == Some((self@, out@)),
            decreases data.len() - i,
        {
            proof {
                lemma_run_prefix(old(self)@, data@, i as int + 1);
                assert(data@.take(i + 1).drop_last() == data@.take(i as int));
            }
            self.push_byte(data[i], &mut out);
            i = i + 1;
        }
        assert(data@.take(i as int) == data@);
        out
    }

    /// Whether the reader can take `data` next: `false` where a chunk header
    /// in it does not fit together.
    pub fn accepts(&self, data: &[u8]) -> (r: bool)
        requires
            self.wf(),
        ensures
            r == run(self@, data@) is Some,
    {
        let mut probe = AuthDeframer { state: self.copy_state(), header: copy_range(self.header.as_slice(), 0, self.header.len()) };
        assert(self.header@.subrange(0, self.header@.len() as int) == self.header@);
        assert(data@.take(0) == Seq::<u8>::empty());
        let mut scratch: Vec<u8> = Vec::new();
        let mut i: usize = 0;
        while i < data.len()
            invariant
                i <= data@.len(),
                probe.wf(),
                run(self@, data@.take(i as int)) is Some,
                run(self@, data@.take(i as int)).unwrap().0 == probe@,
            decreases data.len() - i,
        {
            assert(data@.take(i + 1).drop_last() == data@.take(i as int));
            if !probe.step_ok(data[i]) {
                proof {
                    lemma_run_none_extends(self@, data@, i as int + 1);
                }
                return false;
            }
            probe.push_byte(data[i], &mut scratch);
            i = i + 1;
        }
        assert(data@.take(i as int) == data@);
        true
    }

    fn copy_state(&self) -> (r: ReadState)
        ensures
            r == self.state,
    {
        match self.state {
            ReadState::Size => ReadState::Size,
            ReadState::Random { rnd_len, payload_len } => ReadState::Random { rnd_len, payload_len },
            ReadState::Data { payload_len } => ReadState::Data { payload_len },
            ReadState::Hmac { remaining } => ReadState::Hmac { remaining },
        }
    }

    /// Whether the next byte `b` keeps the stream well-framed.
    fn step_ok(&self, b: u8) -> (r: bool)
        requires
            self.wf(),
        ensures
            r == step(self@, b) is Some,
    {
        match self.state {
            ReadState::Size => {
                if self.header.len() + 1 < 7 {
                    return true;
                }
                let total = self.header[0] as usize + 256 * self.header[1] as usize;
                let rnd = parse_rnd_len(&[self.header[4], self.header[5], b]);
                let ghost h2 = self.header@.push(b);
                assert(seq![h2[4], h2[5], h2[6]] == h2.subrange(4, 7));
                rnd >= 1 && total >= rnd + 8
            },
            _ => true,
        }
    }
}

proof fn lemma_run_prefix(st: DeframeState, s: Seq<u8>, i: int)
    requires
        0 <= i <= s.len(),
        run(st, s) is Some,
    ensures
        run(st, s.take(i)) is Some,
    decreases s.len(),
{
    if i < s.len() {
        assert(s.drop_last().take(i) == s.take(i));
        lemma_run_prefix(st, s.drop_last(), i);
    } else {
        assert(s.take(i) == s);
    }
}

proof fn lemma_run_none_extends(st: DeframeState, s: Seq<u8>, i: int)
    requires
        0 < i <= s.len(),
        run(st, s.take(i)) is None,
    ensures
        run(st, s) is None,
    decreases s.len(),
{
    if i < s.len() {
        assert(s.drop_last().take(i) == s.take(i));
        lemma_run_none_extends(st, s.drop_last(), i);
    } else {
        assert(s.take(i) == s);
    }
}


/// Running over `a` and then over `b` is running over `a + b`.
pub proof fn lemma_run_concat(st: DeframeState, a: Seq<u8>, b: Seq<u8>)
    ensures
        run(st, a + b) == (match run(st, a) {
            None => None,
            Some((st1, o1)) => match run(st1, b) {
                None => None,
                Some((st2, o2)) => Some((st2, o1 + o2)),
            },
        }),
    decreases b.len(),
{
    if b.len() == 0 {
        assert(a + b == a);
        if let Some((st1, o1)) = run(st, a) {
            assert(o1 + Seq::<u8>::empty() == o1);
        }
    } else {
        lemma_run_concat(st, a, b.drop_last());
        assert((a + b).drop_last() == a + b.drop_last());
        assert((a + b).last() == b.last());
        if let Some((st1, o1)) = run(st, a) {
            if let Some((st2, o2)) = run(st1, b.drop_last()) {
                if let Some((st3, o3)) = step(st2, b.last()) {
                    assert(o1 + o2 + o3 == o1 + (o2 + o3));
                }
            }
        }
    }
}

proof fn lemma_run_header(h: Seq<u8>)
    requires
        h.len() <= 6,
    ensures
        run(DeframeState::Size(Seq::empty()), h) == Some((DeframeState::Size(h), Seq::<u8>::empty())),
    decreases h.len(),
{
    if h.len() > 0 {
        lemma_run_header(h.drop_last());
        assert(h.drop_last().push(h.last()) == h);
        assert(Seq::<u8>::empty() + Seq::<u8>::empty() == Seq::<u8>::empty());
    } else {
        assert(h == Seq::<u8>::empty());
    }
}

proof fn lemma_run_random(r: nat, p: nat, x: Seq<u8>, k: nat)
    requires
        r > 0,
        x.len() == r,
        k <= r,
    ensures
        run(DeframeState::Random(r, p), x.take(k as int)) == Some((
            if k < r { DeframeState::Random((r - k) as nat, p) } else { settle(DeframeState::Random(0, p)) },
            Seq::<u8>::empty(),
        )),
    decreases k,
{
    if k > 0 {
        lemma_run_random(r, p, x, (k - 1) as nat);
        assert(x.take(k as int).drop_last() == x.take(k - 1));
    }
}

proof fn lemma_run_data(p: nat, d: Seq<u8>, k: nat)
    requires
        p > 0,
        d.len() == p,
        k <= p,
    ensures
        run(DeframeState::Data(p), d.take(k as int)) == Some((
            if k < p { DeframeState::Data((p - k) as nat) } else { DeframeState::Hmac(4) },
            d.take(k as int),
        )),
    decreases k,
{
    if k > 0 {
        lemma_run_data(p, d, (k - 1) as nat);
        assert(d.take(k as int).drop_last() == d.take(k - 1));
        assert(d.take(k - 1) + seq![d[k - 1]] == d.take(k as int));
    } else {
        assert(d.take(0) == Seq::<u8>::empty());
    }
}

proof fn lemma_run_hmac(t: Seq<u8>, k: nat)
    requires
        t.len() == 4,
        k <= 4,
    ensures
        run(DeframeState::Hmac(4), t.take(k as int)) == Some((
            if k < 4 { DeframeState::Hmac((4 - k) as nat) } else { DeframeState::Size(Seq::empty()) },
            Seq::<u8>::empty(),
        )),
    decreases k,
{
    if k > 0 {
        lemma_run_hmac(t, (k - 1) as nat);
        assert(t.take(k as int).drop_last() == t.take(k - 1));
    }
}

/// From any point before a chunk's payload, the rest of the chunk yields
/// exactly the payload and leaves the reader at the start of the next one.
proof fn lemma_run_chunk_tail(r: nat, x: Seq<u8>, d: Seq<u8>, t: Seq<u8>)
    requires
        x.len() == r,
        t.len() == 4,
    ensures
        run(settle(DeframeState::Random(r, d.len())), x + d + t)
            == Some((DeframeState::Size(Seq::<u8>::empty()), d)),
{
    let p = d.len();
    lemma_run_hmac(t, 4);
    assert(t.take(4) == t);
    let after_x = settle(DeframeState::Random(0, p));
    if r > 0 {
        lemma_run_random(r, p, x, r);
        assert(x.take(r as int) == x);
    } else {
        assert(x == Seq::<u8>::empty());
        assert(run(after_x, x) == Some((after_x, Seq::<u8>::empty())));
    }
    // after `x`, the reader is at `after_x`
    assert(run(settle(DeframeState::Random(r, p)), x) == Some((after_x, Seq::<u8>::empty())));
    lemma_run_concat(settle(DeframeState::Random(r, p)), x, d);
    lemma_run_concat(settle(DeframeState::Random(r, p)), x + d, t);
    if p > 0 {
        lemma_run_data(p, d, p);
        assert(d.take(p as int) == d);
        assert(Seq::<u8>::empty() + d == d);
        assert(d + Seq::<u8>::empty() == d);
    } else {
        assert(d == Seq::<u8>::empty());
        assert(run(after_x, d) == Some((after_x, Seq::<u8>::empty())));
    }
}

/// The header of a frame built by `spec_pack_chunk` states its length and
/// random-byte count truthfully.
proof fn lemma_chunk_header(f: Seq<u8>, size: Seq<u8>, tag2: Seq<u8>, rand: Seq<u8>, rest: Seq<u8>, total: nat)
    requires
        rand_fits(rand),
        total < 0x1_0000,
        size == le_bytes((total % 0x1_0000) as int, 2),
        tag2.len() == 2,
        rest.len() >= 4,
        f == size + tag2 + rnd_field(rand) + rest,
    ensures
        f.len() >= 7,
        header_total(f.take(7)) == total,
        header_rnd(f.take(7)) == rand.len(),
{
    let n = rand.len();
    let field = rnd_field(rand);
    let h = f.take(7);
    assert(field.len() == n);
    assert(f.len() == 4 + n + rest.len());
    reveal_with_fuel(crate::bytes::pow256, 3);
    assert(total % 0x1_0000 == total);
    assert(h[0] == size[0] && h[1] == size[1]);
    assert(header_total(h) == total);
    assert(h[4] == field[0]);
    if n >= 128 {
        assert(h[5] == field[1]);
        assert(h[6] == field[2]);
    }
    assert(h.subrange(4, 7)[0] == h[4]);
}

proof fn lemma_replay(st1: DeframeState, a: u8, b: u8)
    requires
        !(st1 is Size),
        !(body_step(st1, a).0 is Size),
    ensures
        run(st1, seq![a, b]) == Some((
            body_step(body_step(st1, a).0, b).0,
            body_step(st1, a).1 + body_step(body_step(st1, a).0, b).1,
        )),
{
    assert(seq![a, b].drop_last() == seq![a]);
    assert(seq![a].drop_last() == Seq::<u8>::empty());
    assert(Seq::<u8>::empty() + body_step(st1, a).1 == body_step(st1, a).1);
    assert(run(st1, Seq::<u8>::empty()) == Some((st1, Seq::<u8>::empty())));
    assert(seq![a].last() == a);
    assert(seq![a, b].last() == b);
    assert(run(st1, seq![a]) == Some((body_step(st1, a).0, body_step(st1, a).1)));
}

/// Reading a sound seven-byte header is reading its last two bytes from
/// the state the header announces.
proof fn lemma_run_full_header(h: Seq<u8>)
    requires
        h.len() == 7,
        header_sound(h),
    ensures
        run(DeframeState::Size(Seq::empty()), h) == run(
            settle(DeframeState::Random((header_rnd(h) - 1) as nat, (header_total(h) - header_rnd(h) - 8) as nat)),
            h.subrange(5, 7),
        ),
{
    let st1 = settle(DeframeState::Random((header_rnd(h) - 1) as nat, (header_total(h) - header_rnd(h) - 8) as nat));
    lemma_run_header(h.take(6));
    assert(h.take(6).push(h[6]) =~= h);
    assert(h.drop_last() =~= h.take(6));
    assert(h.subrange(5, 7) =~= seq![h[5], h[6]]);
    lemma_replay(st1, h[5], h[6]);
    assert(Seq::<u8>::empty() + (body_step(st1, h[5]).1 + body_step(body_step(st1, h[5]).0, h[6]).1)
        == body_step(st1, h[5]).1 + body_step(body_step(st1, h[5]).0, h[6]).1);
}

/// The stream reader recovers the payload of a single chunk frame.
#[verifier::rlimit(100)]
#[verifier::spinoff_prover]
pub proof fn lemma_chunk_roundtrip(
    user_key: Seq<u8>,
    chunk_id: u32,
    kind: HashKind,
    rand: Seq<u8>,
    payload: Seq<u8>,
)
    requires
        rand_fits(rand),
        8 + rand.len() + payload.len() < 0x1_0000,
    ensures
        run(DeframeState::Size(Seq::empty()), spec_pack_chunk(user_key, chunk_id, kind, rand, payload))
            == Some((DeframeState::Size(Seq::<u8>::empty()), payload)),
{
    let key = chunk_hmac_key(user_key, chunk_id);
    let n = rand.len();
    let total: nat = 2 + 2 + n + payload.len() + 4;
    let size = le_bytes((total % 0x1_0000) as int, 2);
    let tag2 = first_bytes(sign(kind, key, size), 2);
    let field = rnd_field(rand);
    let body = size + tag2 + field + payload;
    let tag4 = first_bytes(sign(kind, key, body), 4);
    let f = body + tag4;
    assert(f == spec_pack_chunk(user_key, chunk_id, kind, rand, payload));
    assert(f =~= size + tag2 + field + (payload + tag4));
    lemma_chunk_header(f, size, tag2, rand, payload + tag4, total);
    let h = f.take(7);
    let st1 = settle(DeframeState::Random((n - 1) as nat, payload.len()));
    lemma_run_full_header(h);
    let x = field.subrange(1, n as int);
    let rest = x + payload + tag4;
    assert(f.subrange(5, f.len() as int) =~= rest);
    assert(h.subrange(5, 7) =~= rest.take(2));
    lemma_run_chunk_tail((n - 1) as nat, x, payload, tag4);
    lemma_run_concat(st1, rest.take(2), rest.subrange(2, rest.len() as int));
    assert(rest.take(2) + rest.subrange(2, rest.len() as int) =~= rest);
    assert(rest.subrange(2, rest.len() as int) =~= f.subrange(7, f.len() as int));
    lemma_run_concat(DeframeState::Size(Seq::empty()), h, f.subrange(7, f.len() as int));
    assert(h + f.subrange(7, f.len() as int) =~= f);
}

/// The frames of a write, one after another.
pub open spec fn concat_all(fs: Seq<Seq<u8>>) -> Seq<u8>
    decreases fs.len(),
{
    if fs.len() == 0 {
        Seq::empty()
    } else {
        concat_all(fs.drop_last()) + fs.last()
    }
}

/// Whatever a write is cut into and framed as by `pack_data`, the stream
/// reader yields exactly the bytes written, and ends at a chunk boundary.
pub proof fn lemma_pack_data_roundtrip(
    user_key: Seq<u8>,
    first_id: u32,
    kind: HashKind,
    last_write_len: nat,
    buf: Seq<u8>,
    frames: Seq<Seq<u8>>,
)
    requires
        frames.len() == unit_count(buf.len()),
        forall|i: int| 0 <= i < frames.len() ==> is_chunk_frame(
            user_key,
            (first_id + i + 1) as u32,
            kind,
            last_write_len,
            buf.len(),
            unit_at(buf, i as nat),
            #[trigger] frames[i],
        ),
    ensures
        run(DeframeState::Size(Seq::empty()), concat_all(frames))
            == Some((DeframeState::Size(Seq::<u8>::empty()), buf)),
{
    lemma_pack_data_prefix(user_key, first_id, kind, last_write_len, buf, frames, frames.len());
    assert(frames.take(frames.len() as int) =~= frames);
    let k = frames.len();
    assert(2000 * k >= buf.len()) by {
        assert(2000 * ((buf.len() + 1999) / 2000) >= buf.len()) by (nonlinear_arith);
    }
    assert(buf.take(buf.len() as int) =~= buf);
}

proof fn lemma_pack_data_prefix(
    user_key: Seq<u8>,
    first_id: u32,
    kind: HashKind,
    last_write_len: nat,
    buf: Seq<u8>,
    frames: Seq<Seq<u8>>,
    k: nat,
)
    requires
        k <= frames.len(),
        frames.len() == unit_count(buf.len()),
        forall|i: int| 0 <= i < frames.len() ==> is_chunk_frame(
            user_key,
            (first_id + i + 1) as u32,
            kind,
            last_write_len,
            buf.len(),
            unit_at(buf, i as nat),
            #[trigger] frames[i],
        ),
    ensures
        run(DeframeState::Size(Seq::empty()), concat_all(frames.take(k as int)))
            == Some((DeframeState::Size(Seq::<u8>::empty()), buf.take(if 2000 * k <= buf.len() { 2000 * k } else { buf.len() } as int))),
    decreases k,
{
    if k == 0 {
        assert(frames.take(0) =~= Seq::<Seq<u8>>::empty());
        assert(buf.take(0) =~= Seq::<u8>::empty());
    } else {
        let j = (k - 1) as nat;
        lemma_pack_data_prefix(user_key, first_id, kind, last_write_len, buf, frames, j);
        assert(frames.take(k as int).drop_last() =~= frames.take(j as int));
        assert(frames.take(k as int).last() == frames[j as int]);
        // chunk j lies inside the write
        assert(2000 * j < buf.len()) by {
            assert(j < (buf.len() + 1999) / 2000);
            assert(2000 * j < buf.len()) by (nonlinear_arith)
                requires j < (buf.len() + 1999) / 2000;
        }
        let unit = unit_at(buf, j);
        assert(is_chunk_frame(user_key, (first_id + j + 1) as u32, kind, last_write_len, buf.len(), unit, frames[j as int]));
        let rand = choose|rand: Seq<u8>|
            rnd_len_allowed(unit.len(), last_write_len, buf.len(), rand.len())
                && #[trigger] spec_pack_chunk(user_key, (first_id + j + 1) as u32, kind, rand, unit) == frames[j as int];
        assert(unit.len() <= 2000);
        lemma_chunk_roundtrip(user_key, (first_id + j + 1) as u32, kind, rand, unit);
        lemma_run_concat(DeframeState::Size(Seq::empty()), concat_all(frames.take(j as int)), frames[j as int]);
        let end = if 2000 * k <= buf.len() { 2000 * k } else { buf.len() };
        assert(buf.take((2000 * j) as int) + unit =~= buf.take(end as int));
    }
}

/// Whatever chunks a stream is sent, each framed as `pack_chunk` frames
/// it (any chunk numbers, any earlier and whole write lengths, payloads of
/// at most `PACK_UNIT_SIZE` bytes), the reader takes them one after another
/// and yields exactly their payloads, in order, ending at a chunk boundary.
pub proof fn lemma_chunks_roundtrip(
    user_key: Seq<u8>,
    kind: HashKind,
    ids: Seq<u32>,
    last_write_lens: Seq<nat>,
    full_lens: Seq<nat>,
    payloads: Seq<Seq<u8>>,
    frames: Seq<Seq<u8>>,
)
    requires
        ids.len() == frames.len(),
        last_write_lens.len() == frames.len(),
        full_lens.len() == frames.len(),
        payloads.len() == frames.len(),
        forall|i: int| 0 <= i < frames.len() ==> (#[trigger] payloads[i]).len() <= PACK_UNIT_SIZE,
        forall|i: int| 0 <= i < frames.len() ==> is_chunk_frame(
            user_key, ids[i], kind, last_write_lens[i], full_lens[i], payloads[i], #[trigger] frames[i]),
    ensures
        run(DeframeState::Size(Seq::empty()), concat_all(frames))
            == Some((DeframeState::Size(Seq::<u8>::empty()), concat_all(payloads))),
    decreases frames.len(),
{
    if frames.len() > 0 {
        let j = frames.len() - 1;
        assert forall|i: int| 0 <= i < frames.drop_last().len() implies (#[trigger] payloads.drop_last()[i]).len() <= PACK_UNIT_SIZE by {
            assert(payloads.drop_last()[i] == payloads[i]);
        }
        assert forall|i: int| 0 <= i < frames.drop_last().len() implies is_chunk_frame(
            user_key, ids.drop_last()[i], kind, last_write_lens.drop_last()[i], full_lens.drop_last()[i],
            payloads.drop_last()[i], #[trigger] frames.drop_last()[i]) by {
            assert(frames.drop_last()[i] == frames[i]);
            assert(payloads.drop_last()[i] == payloads[i]);
            assert(is_chunk_frame(user_key, ids[i], kind, last_write_lens[i], full_lens[i], payloads[i], frames[i]));
        }
        lemma_chunks_roundtrip(user_key, kind, ids.drop_last(), last_write_lens.drop_last(), full_lens.drop_last(),
            payloads.drop_last(), frames.drop_last());
        assert(is_chunk_frame(user_key, ids[j], kind, last_write_lens[j], full_lens[j], payloads[j], frames[j]));
        let unit = payloads[j];
        assert(unit.len() <= 2000);
        let rand = choose|rand: Seq<u8>|
            rnd_len_allowed(unit.len(), last_write_lens[j], full_lens[j], rand.len())
                && #[trigger] spec_pack_chunk(user_key, ids[j], kind, rand, unit) == frames[j];
        lemma_chunk_roundtrip(user_key, ids[j], kind, rand, unit);
        lemma_run_concat(DeframeState::Size(Seq::empty()), concat_all(frames.drop_last()), frames[j]);
    }
}

} // verus!
