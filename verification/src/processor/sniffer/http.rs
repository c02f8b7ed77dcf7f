//! Sniffing the host of an HTTP request.
use vstd::prelude::*;
use crate::processor::http::server::{RequestHeadView, headers_view, http_request_parsed, parse_request};
use crate::text::{chars_of, eq_ignore_ascii_case, eq_ignore_ascii_case_seq, literal};
use crate::utils::{lossy_text, utf8_lossy};
use super::SniffStatus;

verus! {

/// The abstract value of a sniff.
pub enum SniffView {
    NoClue,
    Fail(Seq<char>),
    Success(Seq<char>),
}

pub open spec fn sniff_view(s: SniffStatus) -> SniffView {
    match s {
        SniffStatus::NoClue => SniffView::NoClue,
        SniffStatus::Fail(m) => SniffView::Fail(m@),
        SniffStatus::Success(h) => SniffView::Success(h@),
    }
}

/// The value of the first header named `host` (in any case).
pub open spec fn first_host(hs: Seq<(Seq<char>, Seq<u8>)>) -> Option<Seq<u8>>
    decreases hs.len(),
{
    if hs.len() == 0 {
        None
    } else if eq_ignore_ascii_case_seq(hs[0].0, "host"@) {
        Some(hs[0].1)
    } else {
        first_host(hs.drop_first())
    }
}

/// What the bytes so far say of an HTTP request's host: a parse error
/// fails; otherwise the first `Host` header the parser filled in gives its
/// value (read leniently as UTF-8), also from a head not yet complete;
/// without one, a complete head fails for want of a host and an incomplete
/// one says nothing yet.
pub open spec fn spec_sniff(b: Seq<u8>) -> SniffView {
    match http_request_parsed(b, 32) {
        Err(()) => SniffView::Fail("Not HTTP"@),
        Ok((status, head)) => match first_host(head.headers) {
            Some(v) => SniffView::Success(lossy_text(v)),
            None => if status is Some { SniffView::Fail("No Host"@) } else { SniffView::NoClue },
        },
    }
}

/// What a search of the headers with no `Host` among them ends with.
pub open spec fn no_host_status(complete: bool) -> SniffView {
    if complete { SniffView::Fail("No Host"@) } else { SniffView::NoClue }
}

/// Sniffs the host of an HTTP request.
pub fn sniff(b: &[u8]) -> (r: SniffStatus)
    ensures
        sniff_view(r) == spec_sniff(b@),
{
    match parse_request(b, 32) {
        Err(()) => SniffStatus::Fail("Not HTTP"),
        Ok((status, head)) => {
            let complete = status.is_some();
            let name = literal("host");
            let ghost hs = headers_view(head.headers@);
            let mut i: usize = 0;
            assert(hs.skip(0) == hs);
            assert(spec_sniff(b@) == match first_host(hs) {
                Some(v) => SniffView::Success(lossy_text(v)),
                None => no_host_status(complete),
            });
            while i < head.headers.len()
                invariant
                    i <= head.headers@.len(),
                    spec_sniff(b@) == match first_host(hs) {
                        Some(v) => SniffView::Success(lossy_text(v)),
                        None => no_host_status(complete),
                    },
                    hs == headers_view(head.headers@),
                    name@ == "host"@,
                    first_host(hs) == first_host(hs.skip(i as int)),
                decreases head.headers.len() - i,
            {
                let ghost rest = hs.skip(i as int);
                assert(rest[0] == (head.headers@[i as int].0@, head.headers@[i as int].1@));
                assert(rest.drop_first() == hs.skip(i + 1));
                let hn = chars_of(head.headers[i].0.as_str());
                if eq_ignore_ascii_case(hn.as_slice(), name.as_slice()) {
                    return SniffStatus::Success(utf8_lossy(head.headers[i].1.as_slice()));
                }
                i = i + 1;
            }
            assert(hs.skip(i as int).len() == 0);
            if complete { SniffStatus::Fail("No Host") } else { SniffStatus::NoClue }
        },
    }
}

} // verus!
