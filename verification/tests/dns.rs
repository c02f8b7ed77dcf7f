use comet::dns::{finish_response, lookup_with_id, prepare_query, upstream_query_with_id, upstream_server, DnsError, MAX_PAYLOAD_LEN};
use comet::net::IpAddr;
use trust_dns_proto::op::{Message, Query};
use trust_dns_proto::rr::{Name, RecordType};
use trust_dns_proto::serialize::binary::BinEncodable;

fn request(id: u16, with_query: bool) -> Vec<u8> {
    let mut m = Message::new();
    m.set_id(id);
    if with_query {
        m.add_query(Query::query(Name::from_ascii("example.com.").unwrap(), RecordType::AAAA));
    }
    m.to_vec().unwrap()
}

#[test]
fn forwards_first_question() {
    let (cid, q) = upstream_query_with_id(&request(0x1234, true), 7).unwrap();
    assert_eq!(cid, 0x1234);
    let m = Message::from_vec(&q).unwrap();
    assert_eq!(m.id(), 7);
    assert!(m.recursion_desired());
    assert_eq!(m.queries().len(), 1);
    assert_eq!(m.queries()[0].query_type(), RecordType::AAAA);
    assert_eq!(m.queries()[0].name().to_ascii(), "example.com.");
    assert_eq!(m.edns().unwrap().max_payload(), MAX_PAYLOAD_LEN);
    let name = Name::from_ascii("example.com.").unwrap().to_bytes().unwrap();
    assert_eq!(lookup_with_id(&name, 28, 7).unwrap(), q);
    assert_eq!(MAX_PAYLOAD_LEN, 1452);
}

#[test]
fn refuses_bad_requests() {
    assert_eq!(upstream_query_with_id(&[1, 2, 3], 1), Err(DnsError::BadRequest));
    assert_eq!(upstream_query_with_id(&request(5, false), 1), Err(DnsError::NoQuery));
    assert_eq!(prepare_query(&request(5, false)), Err(DnsError::NoQuery));
    assert_eq!(prepare_query(&request(9, true)).unwrap().0, 9);
}

#[test]
fn answer_takes_client_id() {
    let answer = finish_response(&request(0x4444, true), 0x1111).unwrap();
    assert_eq!(Message::from_vec(&answer).unwrap().id(), 0x1111);
    assert_eq!(finish_response(&[0], 1), Err(DnsError::BadResponse));
    assert_eq!(upstream_server(), (IpAddr::V4(0x01020408), 53));
}
