//! DNS forwarding: a client's query is asked again upstream with the same
//! name and type (with EDNS and recursion desired), and the upstream answer
//! goes back under the client's message id.
use vstd::prelude::*;
use trust_dns_proto::serialize::binary::{BinDecodable, BinEncodable};
use trust_dns_proto::op::{Message, MessageType, OpCode, Query};
use crate::crypto::random_bytes;
use crate::net::IpAddr;

verus! {

/// The largest UDP payload announced: an Ethernet frame less the IPv6 and
/// UDP headers.
pub const MAX_PAYLOAD_LEN: u16 = 1500 - 40 - 8;

/// What `Message::from_vec` makes of `bytes`, with each query's name
/// written in wire form (`Name::to_bytes`): `None` where it is no DNS
/// message or a query's name cannot be written so, else its id and its
/// queries, each as its name in wire form and its record type.
pub uninterp spec fn dns_request(bytes: Seq<u8>) -> Option<(u16, Seq<(Seq<u8>, u16)>)>;

/// The bytes of a query message for one name (in wire form) and record
/// type, with the given id, recursion flag, EDNS payload size and version,
/// as `Message::to_vec` writes it; `None` where the name does not read back.
pub uninterp spec fn dns_query_message(name: Seq<u8>, qtype: u16, id: u16, recursion: bool, max_payload: u16, edns_version: u8) -> Option<Seq<u8>>;

/// `bytes` read as a DNS message and written again with another id;
/// `None` where they are no DNS message.
pub uninterp spec fn dns_with_id(bytes: Seq<u8>, id: u16) -> Option<Seq<u8>>;

pub open spec fn queries_view(qs: Seq<(Vec<u8>, u16)>) -> Seq<(Seq<u8>, u16)> {
    qs.map_values(|q: (Vec<u8>, u16)| (q.0@, q.1))
}

/// `Message::from_vec`, then `id` and `queries`: each query's name in wire
/// form (`Name::to_bytes`) and its record type as a number.
#[verifier::external_body]
fn decode_request(bytes: &[u8]) -> (r: Option<(u16, Vec<(Vec<u8>, u16)>)>)
    ensures
        match r {
            None => dns_request(bytes@) is None,
            Some((id, qs)) => dns_request(bytes@) == Some((id, queries_view(qs@))),
        },
{
    let m = Message::from_vec(bytes).ok()?;
    let qs = m.queries().iter().map(|q| Some((q.name().to_bytes().ok()?, u16::from(q.query_type())))).collect::<Option<Vec<_>>>()?;
    Some((m.id(), qs))
}

/// `Message::new` with one `Query::query`, the id, the message type and
/// operation `Query`, the recursion flag and the EDNS payload size and
/// version set, then `Message::to_vec`.
#[verifier::external_body]
fn encode_query(name: &[u8], qtype: u16, id: u16, recursion: bool, max_payload: u16, edns_version: u8) -> (r: Option<Vec<u8>>)
    ensures
        match r {
            None => dns_query_message(name@, qtype, id, recursion, max_payload, edns_version) is None,
            Some(b) => dns_query_message(name@, qtype, id, recursion, max_payload, edns_version) == Some(b@),
        },
{
    let n = trust_dns_proto::rr::Name::from_bytes(name).ok()?;
    let mut m = Message::new();
    m.add_query(Query::query(n, trust_dns_proto::rr::RecordType::from(qtype)));
    m.set_id(id).set_message_type(MessageType::Query).set_op_code(OpCode::Query).set_recursion_desired(recursion);
    m.edns_mut().set_max_payload(max_payload).set_version(edns_version);
    m.to_vec().ok()
}

/// `Message::from_vec`, `set_id`, `Message::to_vec`.
#[verifier::external_body]
fn reencode_with_id(bytes: &[u8], id: u16) -> (r: Option<Vec<u8>>)
    ensures
        match r {
            None => dns_with_id(bytes@, id) is None,
            Some(b) => dns_with_id(bytes@, id) == Some(b@),
        },
{
    let mut m = Message::from_vec(bytes).ok()?;
    m.set_id(id);
    m.to_vec().ok()
}

/// Why a query could not be forwarded.
#[derive(Debug, Clone, Copy, PartialEq, Eq, Structural)]
pub enum DnsError {
    /// The client's bytes are no DNS message, or a query name in it cannot
    /// be written in wire form.
    BadRequest,
    /// The message asks nothing.
    NoQuery,
    /// The upstream query could not be written.
    Encode,
    /// The upstream answer is no DNS message.
    BadResponse,
}

/// The server queries go to: 1.2.4.8, port 53.
pub fn upstream_server() -> (r: (IpAddr, u16))
    ensures
        r == (IpAddr::V4(0x01020408), 53u16),
{
    (IpAddr::V4(0x01020408), 53)
}

/// A query for `name` (wire form) and `qtype` under `id`, asking for
/// recursion and announcing EDNS version 0 with `MAX_PAYLOAD_LEN`.
pub fn lookup_with_id(name: &[u8], qtype: u16, id: u16) -> (r: Option<Vec<u8>>)
    ensures
        match dns_query_message(name@, qtype, id, true, MAX_PAYLOAD_LEN, 0) {
            None => r is None,
            Some(b) => r matches Some(v) && v@ == b,
        },
{
    encode_query(name, qtype, id, true, MAX_PAYLOAD_LEN, 0)
}

/// A query for `name` and `qtype` under a random id: what `lookup_with_id`
/// gives for the id drawn, `None` included.
pub fn new_lookup(name: &[u8], qtype: u16) -> (r: Option<Vec<u8>>)
    ensures
        exists|id: u16| match #[trigger] dns_query_message(name@, qtype, id, true, MAX_PAYLOAD_LEN, 0) {
            None => r is None,
            Some(b) => r matches Some(v) && v@ == b,
        },
{
    let b = random_bytes(2);
    let id: u16 = (b[0] as u16) * 256 + b[1] as u16;
    let r = lookup_with_id(name, qtype, id);
    assert(match dns_query_message(name@, qtype, id, true, MAX_PAYLOAD_LEN, 0) {
        None => r is None,
        Some(b) => r matches Some(v) && v@ == b,
    });
    r
}

/// What forwarding a client's message asks upstream: the client's id, and
/// a query for the first name and type it asks under `id`.
pub open spec fn spec_upstream_query(request: Seq<u8>, id: u16) -> Result<(u16, Seq<u8>), DnsError> {
    match dns_request(request) {
        None => Err(DnsError::BadRequest),
        Some((client_id, qs)) => if qs.len() < 1 {
            Err(DnsError::NoQuery)
        } else {
            match dns_query_message(qs[0].0, qs[0].1, id, true, MAX_PAYLOAD_LEN, 0) {
                None => Err(DnsError::Encode),
                Some(q) => Ok((client_id, q)),
            }
        },
    }
}

/// Reads a client's message and makes the upstream query, under `id`, for
/// its first question; gives the client's id with it.
pub fn upstream_query_with_id(request: &[u8], id: u16) -> (r: Result<(u16, Vec<u8>), DnsError>)
    ensures
        match spec_upstream_query(request@, id) {
            Ok((cid, q)) => r matches Ok((c2, v)) && c2 == cid && v@ == q,
            Err(e) => r == Err::<(u16, Vec<u8>), DnsError>(e),
        },
{
    let (client_id, qs) = match decode_request(request) {
        None => return Err(DnsError::BadRequest),
        Some(x) => x,
    };
    if qs.len() < 1 {
        return Err(DnsError::NoQuery);
    }
    match lookup_with_id(qs[0].0.as_slice(), qs[0].1, id) {
        None => Err(DnsError::Encode),
        Some(q) => Ok((client_id, q)),
    }
}

/// The same under a random id.
pub fn prepare_query(request: &[u8]) -> (r: Result<(u16, Vec<u8>), DnsError>)
    ensures
        r matches Ok((cid, q)) ==> exists|id: u16| spec_upstream_query(request@, id) == Ok::<(u16, Seq<u8>), DnsError>((cid, q@)),
        r matches Err(e) ==> exists|id: u16| spec_upstream_query(request@, id) == Err::<(u16, Seq<u8>), DnsError>(e),
        dns_request(request@) is None ==> r == Err::<(u16, Vec<u8>), DnsError>(DnsError::BadRequest),
        dns_request(request@) matches Some((_, qs)) && qs.len() == 0 ==> r == Err::<(u16, Vec<u8>), DnsError>(DnsError::NoQuery),
{
    let b = random_bytes(2);
    let id: u16 = (b[0] as u16) * 256 + b[1] as u16;
    upstream_query_with_id(request, id)
}

/// The answer for the client: the upstream answer under the client's id.
pub fn finish_response(response: &[u8], client_id: u16) -> (r: Result<Vec<u8>, DnsError>)
    ensures
        match dns_with_id(response@, client_id) {
            None => r == Err::<Vec<u8>, DnsError>(DnsError::BadResponse),
            Some(b) => r matches Ok(v) && v@ == b,
        },
{
    match reencode_with_id(response, client_id) {
        None => Err(DnsError::BadResponse),
        Some(v) => Ok(v),
    }
}

} // verus!
