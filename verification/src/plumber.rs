//! The registry of processors: each is registered under the name that
//! configurations use, and the last registration of a name counts.
use vstd::prelude::*;
use crate::text::{chars_eq, chars_of};

verus! {

/// The processors that can be registered.
#[derive(Debug, Clone, Copy, PartialEq, Eq, Structural)]
pub enum ProcessorKind {
    AndroidNat,
    AssociateUid,
    Socks5Server,
    Sniffer,
    HttpProxyClient,
    HttpProxyServer,
    SsrAuthClient,
    SsHandshakeClient,
    SsrObfsClient,
    SsStreamCipherClient,
    SsrClient,
    Timeout,
    AnyServer,
    SetDest,
    WsClient,
    TrojanClient,
    TlsClient,
    TlsMitm,
}

/// The registrations, in the order they were made.
pub struct Plumber {
    entries: Vec<(String, ProcessorKind)>,
}

/// The kind registered last under `name` among `es`.
pub open spec fn spec_lookup(es: Seq<(Seq<char>, ProcessorKind)>, name: Seq<char>) -> Option<ProcessorKind>
    decreases es.len(),
{
    if es.len() == 0 {
        None
    } else if es.last().0 == name {
        Some(es.last().1)
    } else {
        spec_lookup(es.drop_last(), name)
    }
}

impl View for Plumber {
    type V = Seq<(Seq<char>, ProcessorKind)>;

    closed spec fn view(&self) -> Seq<(Seq<char>, ProcessorKind)> {
        self.entries@.map_values(|e: (String, ProcessorKind)| (e.0@, e.1))
    }
}

impl Plumber {
    /// An empty registry.
    pub fn new() -> (r: Self)
        ensures
            r@ == Seq::<(Seq<char>, ProcessorKind)>::empty(),
    {
        let r = Plumber { entries: Vec::new() };
        assert(r@ =~= Seq::<(Seq<char>, ProcessorKind)>::empty());
        r
    }

    /// Registers `kind` under `name`.
    pub fn register(&mut self, name: &str, kind: ProcessorKind)
        ensures
            final(self)@ == old(self)@.push((name@, kind)),
    {
        self.entries.push((name.to_owned(), kind));
        assert(self@ =~= old(self)@.push((name@, kind)));
    }

    /// The kind registered last under `name`.
    pub fn lookup(&self, name: &str) -> (r: Option<ProcessorKind>)
        ensures
            r == spec_lookup(self@, name@),
    {
        let n = chars_of(name);
        let mut i: usize = self.entries.len();
        assert(self@.len() == self.entries@.len());
        assert(self@.take(i as int) =~= self@);
        while i > 0
            invariant
                i <= self.entries@.len(),
                n@ == name@,
                spec_lookup(self@, name@) == spec_lookup(self@.take(i as int), name@),
            decreases i,
        {
            let e = chars_of(self.entries[i - 1].0.as_str());
            assert(self@.take(i as int).last() == self@[i - 1]);
            assert(self@.take(i as int).drop_last() == self@.take(i - 1));
            if chars_eq(e.as_slice(), n.as_slice()) {
                return Some(self.entries[i - 1].1);
            }
            i = i - 1;
        }
        None
    }
}

/// Registering `kind` under `name` makes a lookup of `name` give `kind`,
/// and leaves the lookup of every other name as it was.
pub proof fn lemma_register_lookup(es: Seq<(Seq<char>, ProcessorKind)>, name: Seq<char>, kind: ProcessorKind, other: Seq<char>)
    ensures
        spec_lookup(es.push((name, kind)), name) == Some(kind),
        other != name ==> spec_lookup(es.push((name, kind)), other) == spec_lookup(es, other),
{
    assert(es.push((name, kind)).drop_last() == es);
}

} // verus!
