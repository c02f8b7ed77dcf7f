//! VMess user ids: the command key of an id, and the chain of alternative
//! ids derived from a primary one.
use vstd::prelude::*;
use vstd::utf8::encode_utf8;
use crate::bytes::push_slice;
use crate::crypto::{md5, md5_digest};

verus! {

#[verifier::external_type_specification]
#[verifier::external_body]
pub struct ExUuid(uuid::Uuid);

/// The sixteen bytes of a UUID, as `Uuid::as_bytes` gives them.
pub uninterp spec fn uuid_bytes(u: uuid::Uuid) -> Seq<u8>;

/// `Uuid::as_bytes`: the sixteen bytes of the UUID.
#[verifier::external_body]
pub(crate) fn uuid_as_bytes(u: &uuid::Uuid) -> (r: Vec<u8>)
    ensures
        r@ == uuid_bytes(*u),
        r@.len() == 16,
{
    u.as_bytes().to_vec()
}

/// `Uuid::from_bytes`: the UUID with these sixteen bytes.
#[verifier::external_body]
fn uuid_from_bytes(b: &[u8]) -> (r: uuid::Uuid)
    requires
        b@.len() == 16,
    ensures
        uuid_bytes(r) == b@,
{
    let mut a = [0u8; 16];
    a.copy_from_slice(b);
    uuid::Uuid::from_bytes(a)
}

/// The text hashed after an id's bytes to make its command key.
pub open spec fn cmd_key_salt() -> Seq<u8> {
    encode_utf8("c48619fe-8f02-49e0-b9e9-edf763e17e21"@)
}

/// The text hashed after an id's bytes to derive the next id.
pub open spec fn next_id_salt() -> Seq<u8> {
    encode_utf8("16167dc8-16b6-4e6d-b8bb-65dd68113a81"@)
}

/// The text hashed in once more each time a derived id equals its source.
pub open spec fn next_id_retry_salt() -> Seq<u8> {
    encode_utf8("533eff8a-4113-4b10-b5ce-0f5d76b98cd2"@)
}

/// The command key of an id: MD5 of its bytes and the salt.
pub open spec fn spec_cmd_key(id: Seq<u8>) -> Seq<u8> {
    md5_digest(id + cmd_key_salt())
}

/// A user id with its command key.
#[derive(Debug)]
pub struct UserId {
    uuid: uuid::Uuid,
    cmd_key: Vec<u8>,
}

impl UserId {
    /// The id's bytes.
    pub closed spec fn id(&self) -> Seq<u8> {
        uuid_bytes(self.uuid)
    }

    /// The stored command key.
    pub closed spec fn key(&self) -> Seq<u8> {
        self.cmd_key@
    }

    pub open spec fn wf(&self) -> bool {
        self.key() == spec_cmd_key(self.id()) && self.key().len() == 16
    }

    /// The user with this id; its command key is MD5 of the id's bytes and
    /// a fixed salt.
    pub fn new(uuid: uuid::Uuid) -> (r: Self)
        ensures
            r.wf(),
            r.id() == uuid_bytes(uuid),
    {
        let mut data = uuid_as_bytes(&uuid);
        push_slice(&mut data, "c48619fe-8f02-49e0-b9e9-edf763e17e21".as_bytes());
        let cmd_key = md5(data.as_slice());
        UserId { uuid, cmd_key }
    }

    /// The id.
    pub fn uuid(&self) -> (r: uuid::Uuid)
        ensures
            uuid_bytes(r) == self.id(),
    {
        let b = uuid_as_bytes(&self.uuid);
        uuid_from_bytes(b.as_slice())
    }

    /// A copy of the command key.
    pub fn cmd_key(&self) -> (r: Vec<u8>)
        ensures
            r@ == self.key(),
    {
        self.cmd_key.clone()
    }

    /// Two users are the same when their ids are.
    pub fn eq(&self, other: &UserId) -> (r: bool)
        ensures
            r == (self.id() == other.id()),
    {
        let a = uuid_as_bytes(&self.uuid);
        let b = uuid_as_bytes(&other.uuid);
        bytes_eq(a.as_slice(), b.as_slice())
    }
}

fn bytes_eq(a: &[u8], b: &[u8]) -> (r: bool)
    ensures
        r == (a@ == b@),
{
    if a.len() != b.len() {
        return false;
    }
    let mut i: usize = 0;
    while i < a.len()
        invariant
            i <= a@.len() == b@.len(),
            a@.take(i as int) == b@.take(i as int),
        decreases a.len() - i,
    {
        if a[i] != b[i] {
            return false;
        }
        assert(a@.take(i + 1) == a@.take(i as int).push(a@[i as int]));
        assert(b@.take(i + 1) == b@.take(i as int).push(b@[i as int]));
        i = i + 1;
    }
    assert(a@.take(a@.len() as int) == a@);
    assert(b@.take(b@.len() as int) == b@);
    true
}

/// `k` copies of `s`, one after another.
pub open spec fn repeat(s: Seq<u8>, k: nat) -> Seq<u8>
    decreases k,
{
    if k == 0 { Seq::empty() } else { repeat(s, (k - 1) as nat) + s }
}

/// The `k`-th candidate for the id after `id`: MD5 of the id, the salt,
/// and `k` times the retry salt.
pub open spec fn id_candidate(id: Seq<u8>, k: nat) -> Seq<u8> {
    md5_digest(id + next_id_salt() + repeat(next_id_retry_salt(), k))
}

/// How many candidates are tried before the chain is given up.
pub const NEXT_ID_ATTEMPTS: usize = 1024;

/// The first of the first `NEXT_ID_ATTEMPTS` candidates that differs from
/// `id`, counting from `k`.
pub open spec fn first_candidate(id: Seq<u8>, k: nat) -> Option<Seq<u8>>
    decreases NEXT_ID_ATTEMPTS - k,
{
    if k >= NEXT_ID_ATTEMPTS {
        None
    } else if id_candidate(id, k) != id {
        Some(id_candidate(id, k))
    } else {
        first_candidate(id, k + 1)
    }
}

/// The id after `id`: the first candidate that differs from it. Each try
/// hashes the retry salt in once more; after `NEXT_ID_ATTEMPTS` equal
/// candidates (which MD5 makes a practical impossibility) there is none.
fn next_id(uuid: uuid::Uuid) -> (r: Option<uuid::Uuid>)
    ensures
        match first_candidate(uuid_bytes(uuid), 0) {
            Some(c) => r matches Some(u) && uuid_bytes(u) == c,
            None => r is None,
        },
{
    let id = uuid_as_bytes(&uuid);
    let mut data = uuid_as_bytes(&uuid);
    push_slice(&mut data, "16167dc8-16b6-4e6d-b8bb-65dd68113a81".as_bytes());
    let retry = "533eff8a-4113-4b10-b5ce-0f5d76b98cd2".as_bytes();
    proof {
        assert(data@ == id@ + next_id_salt() + repeat(next_id_retry_salt(), 0));
    }
    let mut k: usize = 0;
    while k < NEXT_ID_ATTEMPTS
        invariant
            k <= NEXT_ID_ATTEMPTS,
            id@ == uuid_bytes(uuid),
            retry@ == next_id_retry_salt(),
            data@ == id@ + next_id_salt() + repeat(next_id_retry_salt(), k as nat),
            first_candidate(id@, 0) == first_candidate(id@, k as nat),
        decreases NEXT_ID_ATTEMPTS - k,
    {
        let c = md5(data.as_slice());
        if !bytes_eq(c.as_slice(), id.as_slice()) {
            return Some(uuid_from_bytes(c.as_slice()));
        }
        push_slice(&mut data, retry);
        assert(data@ == id@ + next_id_salt() + repeat(next_id_retry_salt(), (k + 1) as nat));
        k = k + 1;
    }
    None
}

/// The chain of `count` ids after `id`, each derived from the one before;
/// it ends early where an id has no successor.
pub open spec fn alter_id_chain(id: Seq<u8>, count: nat) -> Seq<Seq<u8>>
    decreases count,
{
    if count == 0 {
        Seq::empty()
    } else {
        match first_candidate(id, 0) {
            Some(n) => seq![n] + alter_id_chain(n, (count - 1) as nat),
            None => Seq::empty(),
        }
    }
}

/// The ids of the users.
pub open spec fn user_ids(us: Seq<UserId>) -> Seq<Seq<u8>> {
    us.map_values(|u: UserId| u.id())
}

/// The users of the `count` ids derived one after another from the primary
/// id.
pub fn new_alter_ids(primary: &UserId, count: u16) -> (r: Vec<UserId>)
    ensures
        user_ids(r@) == alter_id_chain(primary.id(), count as nat),
        forall|i: int| 0 <= i < r@.len() ==> (#[trigger] r@[i]).wf(),
{
    let mut ret: Vec<UserId> = Vec::new();
    let mut prev = primary.uuid();
    let mut i: u16 = 0;
    while i < count
        invariant
            i <= count,
            alter_id_chain(primary.id(), count as nat)
                == user_ids(ret@) + alter_id_chain(uuid_bytes(prev), (count - i) as nat),
            forall|j: int| 0 <= j < ret@.len() ==> (#[trigger] ret@[j]).wf(),
        decreases count - i,
    {
        let ghost before = user_ids(ret@);
        match next_id(prev) {
            Some(n) => {
                ret.push(UserId::new(n));
                assert(user_ids(ret@) == before.push(uuid_bytes(n)));
                assert(before.push(uuid_bytes(n)) + alter_id_chain(uuid_bytes(n), (count - i - 1) as nat)
                    == before + (seq![uuid_bytes(n)] + alter_id_chain(uuid_bytes(n), (count - i - 1) as nat)));
                prev = n;
            },
            None => {
                assert(alter_id_chain(uuid_bytes(prev), (count - i) as nat) == Seq::<Seq<u8>>::empty());
                assert(before + Seq::<Seq<u8>>::empty() == before);
                return ret;
            },
        }
        i = i + 1;
    }
    assert(user_ids(ret@) + Seq::<Seq<u8>>::empty() == user_ids(ret@));
    ret
}

} // verus!
