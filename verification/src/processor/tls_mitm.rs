//! TLS interception with certificates made on the fly: one per server
//! name, signed by a CA kept in the data directory.
use vstd::prelude::*;
use crate::plumber::{Plumber, ProcessorKind};
use crate::text::{chars_eq, chars_of};

verus! {

/// Registers the processor as `tls_mitm`.
pub fn register(plumber: &mut Plumber)
    ensures
        final(plumber)@ == old(plumber)@.push(("tls_mitm"@, ProcessorKind::TlsMitm)),
{
    plumber.register("tls_mitm", ProcessorKind::TlsMitm);
}

/// The file, in the data directory, that keeps the CA of pipe `pipe_tag`.
pub fn ca_file_name(pipe_tag: &str) -> (r: String)
    ensures
        r@ == "ca_"@ + pipe_tag@ + ".der"@,
{
    let mut r = String::new();
    r.append("ca_");
    r.append(pipe_tag);
    r.append(".der");
    r
}

/// The common name of a newly made CA.
pub fn ca_common_name() -> (r: &'static str)
    ensures
        r@ == "Comet Self-Signed Certificate"@,
{
    "Comet Self-Signed Certificate"
}

/// The server names a certificate has been made for.
#[derive(Debug)]
pub struct CertCache {
    pub generated: Vec<String>,
}

impl CertCache {
    /// The names, as a set.
    pub open spec fn names(&self) -> Set<Seq<char>> {
        self.generated@.map_values(|s: String| s@).to_set()
    }

    pub fn new() -> (r: Self)
        ensures
            r.names() == Set::<Seq<char>>::empty(),
    {
        let r = CertCache { generated: Vec::new() };
        assert(r.names() =~= Set::<Seq<char>>::empty());
        r
    }

    /// Whether a certificate has been made for `name`; where not, one is to
    /// be made and recorded.
    pub fn contains(&self, name: &str) -> (r: bool)
        ensures
            r == self.names().contains(name@),
    {
        let ghost vs = self.generated@.map_values(|s: String| s@);
        let n = chars_of(name);
        let mut i: usize = 0;
        while i < self.generated.len()
            invariant
                i <= self.generated@.len(),
                vs == self.generated@.map_values(|s: String| s@),
                n@ == name@,
                forall|j: int| 0 <= j < i ==> vs[j] != name@,
            decreases self.generated.len() - i,
        {
            let g = chars_of(self.generated[i].as_str());
            if chars_eq(g.as_slice(), n.as_slice()) {
                assert(vs[i as int] == name@);
                return true;
            }
            i = i + 1;
        }
        assert(!vs.contains(name@));
        false
    }

    /// Records that a certificate has been made for `name`.
    pub fn insert(&mut self, name: &str)
        ensures
            final(self).names() == old(self).names().insert(name@),
    {
        let ghost before = self.generated@.map_values(|s: String| s@);
        self.generated.push(name.to_owned());
        let ghost after = self.generated@.map_values(|s: String| s@);
        assert(after =~= before.push(name@));
        assert(after.to_set() =~= before.to_set().insert(name@)) by {
            assert forall|x: Seq<char>| after.to_set().contains(x) <==> before.to_set().insert(name@).contains(x) by {
                if after.contains(x) {
                    let k = choose|k: int| 0 <= k < after.len() && after[k] == x;
                    if k < before.len() {
                        assert(before[k] == x);
                    }
                }
                if before.contains(x) {
                    let k = choose|k: int| 0 <= k < before.len() && before[k] == x;
                    assert(after[k] == x);
                }
                if x == name@ {
                    assert(after[before.len() as int] == x);
                }
            }
        }
    }
}

} // verus!
