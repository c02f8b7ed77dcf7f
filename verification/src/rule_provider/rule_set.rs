//! A loaded rule list: domain rules (full names, keywords, expressions and
//! domains with their subdomains) or IPv4 networks.
use vstd::prelude::*;
use std::collections::HashMap;
use aho_corasick::{AhoCorasick, AhoCorasickBuilder};
use vstd::utf8::encode_utf8;
use crate::net::{DestAddr, DestView, IpAddr};
use crate::router::matching::MatchMode;
use regex::Regex;
use crate::router::matching::domain::{regex_is_match, regex_matches, regex_source, regex_new, regex_valid};
use crate::text::{chars_of, contains, contains_seq, push_chars, push_char, split, split_on, lemma_split_on_nonempty, lemma_split_on_pieces};

verus! {

/// Converts `www.google.com` to `com.google.www.`: the labels in reverse
/// order, each followed by a dot.
pub open spec fn spec_reversed_fqdn(domain: Seq<char>) -> Seq<char> {
    rev_join(split_on(domain, '.'))
}

/// The pieces from last to first, each followed by a dot.
pub open spec fn rev_join(ps: Seq<Seq<char>>) -> Seq<char>
    decreases ps.len(),
{
    if ps.len() == 0 {
        Seq::empty()
    } else {
        ps.last() + seq!['.'] + rev_join(ps.drop_last())
    }
}

/// Converts a domain to its labels in reverse order, each followed by a dot,
/// for prefix matching.
pub fn to_reversed_fqdn(domain: &str) -> (r: String)
    ensures
        r@ == spec_reversed_fqdn(domain@),
{
    let cs = chars_of(domain);
    let pieces = split(cs.as_slice(), '.');
    let ghost ps = split_on(domain@, '.');
    let mut r = String::new();
    let mut i: usize = pieces.len();
    assert(ps.take(ps.len() as int) == ps);
    while i > 0
        invariant
            i <= pieces@.len(),
            pieces@.len() == ps.len(),
            forall|j: int| 0 <= j < ps.len() ==> (#[trigger] pieces@[j])@ == ps[j],
            r@ + rev_join(ps.take(i as int)) == rev_join(ps),
        decreases i,
    {
        let ghost before = r@;
        push_chars(&mut r, pieces[i - 1].as_slice());
        push_char(&mut r, '.');
        assert(ps.take(i as int).drop_last() == ps.take(i - 1));
        assert(ps.take(i as int).last() == ps[i - 1]);
        assert(before + rev_join(ps.take(i as int)) == r@ + rev_join(ps.take(i - 1)));
        i = i - 1;
    }
    assert(ps.take(0) == Seq::<Seq<char>>::empty());
    assert(r@ + Seq::<char>::empty() == r@);
    r
}

/// `p` is a prefix of `s`.
pub open spec fn is_prefix(p: Seq<char>, s: Seq<char>) -> bool {
    p.len() <= s.len() && s.take(p.len() as int) == p
}

/// `p` is a suffix of `s`.
pub open spec fn is_suffix<T>(p: Seq<T>, s: Seq<T>) -> bool {
    p.len() <= s.len() && s.skip(s.len() - p.len()) == p
}

/// No piece holds a dot.
pub open spec fn dotless(ps: Seq<Seq<char>>) -> bool {
    forall|k: int, j: int| 0 <= k < ps.len() && 0 <= j < ps[k].len() ==> #[trigger] ps[k][j] != '.'
}

proof fn lemma_rev_join_prefix(ps: Seq<Seq<char>>, qs: Seq<Seq<char>>)
    requires
        dotless(ps),
        dotless(qs),
    ensures
        is_prefix(rev_join(ps), rev_join(qs)) <==> is_suffix(ps, qs),
    decreases ps.len(),
{
    if ps.len() == 0 {
        assert(rev_join(ps).len() == 0);
        assert(rev_join(qs).take(0) =~= Seq::<char>::empty());
        assert(qs.skip(qs.len() as int) =~= ps);
    } else if qs.len() == 0 {
        assert(rev_join(ps).len() > 0);
    } else {
        let a = ps.last();
        let b = qs.last();
        let x = rev_join(ps.drop_last());
        let y = rev_join(qs.drop_last());
        assert(dotless(ps.drop_last())) by {
            assert forall|k: int, j: int| 0 <= k < ps.drop_last().len() && 0 <= j < ps.drop_last()[k].len()
                implies #[trigger] ps.drop_last()[k][j] != '.' by {
                assert(ps.drop_last()[k] == ps[k]);
            }
        }
        assert(dotless(qs.drop_last())) by {
            assert forall|k: int, j: int| 0 <= k < qs.drop_last().len() && 0 <= j < qs.drop_last()[k].len()
                implies #[trigger] qs.drop_last()[k][j] != '.' by {
                assert(qs.drop_last()[k] == qs[k]);
            }
        }
        lemma_rev_join_prefix(ps.drop_last(), qs.drop_last());
        let l = a + seq!['.'] + x;
        let r = b + seq!['.'] + y;
        assert(rev_join(ps) == l);
        assert(rev_join(qs) == r);
        if is_prefix(l, r) {
            assert(r.take(l.len() as int) == l);
            if a.len() < b.len() {
                assert(l[a.len() as int] == '.');
                assert(r[a.len() as int] == b[a.len() as int]);
                assert(b[a.len() as int] != '.') by {
                    assert(b == qs[qs.len() - 1]);
                }
                assert(r.take(l.len() as int)[a.len() as int] == r[a.len() as int]);
            } else if a.len() > b.len() {
                assert(r[b.len() as int] == '.');
                assert(l[b.len() as int] == a[b.len() as int]);
                assert(a[b.len() as int] != '.') by {
                    assert(a == ps[ps.len() - 1]);
                }
                assert(r.take(l.len() as int)[b.len() as int] == r[b.len() as int]);
            }
            assert(a.len() == b.len());
            assert(a =~= b) by {
                assert forall|j: int| 0 <= j < a.len() implies a[j] == b[j] by {
                    assert(l[j] == a[j]);
                    assert(r[j] == b[j]);
                    assert(r.take(l.len() as int)[j] == r[j]);
                }
            }
            assert(is_prefix(x, y)) by {
                let n = a.len() + 1;
                assert forall|j: int| 0 <= j < x.len() implies y[j] == x[j] by {
                    assert(l[n + j] == x[j]);
                    assert(r[n + j] == y[j]);
                    assert(r.take(l.len() as int)[n + j] == r[n + j]);
                }
                assert(y.take(x.len() as int) =~= x);
            }
            assert(is_suffix(ps.drop_last(), qs.drop_last()));
            let d = qs.len() - ps.len();
            assert(qs.skip(d) =~= qs.drop_last().skip(d).push(b));
            assert(ps =~= ps.drop_last().push(a));
        }
        if is_suffix(ps, qs) {
            let d = qs.len() - ps.len();
            assert(qs.skip(d) == ps);
            assert(qs.skip(d).last() == b);
            assert(a == b);
            assert(qs.drop_last().skip(d) =~= ps.drop_last());
            assert(is_prefix(x, y));
            assert(r.take(l.len() as int) =~= l) by {
                assert(y.take(x.len() as int) == x);
            }
        }
    }
}

/// Names reversed for prefix matching: the reversed form of domain `dom`
/// starts the reversed form of `name` exactly when the labels of `dom` end
/// the labels of `name`, that is when `name` is `dom` or lies under it.
pub proof fn lemma_reversed_fqdn_prefix(dom: Seq<char>, name: Seq<char>)
    ensures
        is_prefix(spec_reversed_fqdn(dom), spec_reversed_fqdn(name))
            <==> is_suffix(split_on(dom, '.'), split_on(name, '.')),
{
    lemma_split_on_pieces(dom, '.');
    lemma_split_on_pieces(name, '.');
    lemma_rev_join_prefix(split_on(dom, '.'), split_on(name, '.'));
}

/// UTF-8 encoding distributes over concatenation.
pub proof fn lemma_encode_utf8_concat(a: Seq<char>, b: Seq<char>)
    ensures
        encode_utf8(a + b) == encode_utf8(a) + encode_utf8(b),
    decreases a.len(),
{
    if a.len() == 0 {
        assert(a + b == b);
        assert(Seq::<u8>::empty() + encode_utf8(b) == encode_utf8(b));
    } else {
        assert((a + b).drop_first() == a.drop_first() + b);
        assert((a + b)[0] == a[0]);
        lemma_encode_utf8_concat(a.drop_first(), b);
    }
}

/// An anchored Aho-Corasick automaton over a list of patterns. Verus sees
/// nothing inside it; what it holds is named by `ac_patterns`.
#[derive(Debug)]
#[verifier::external_body]
pub struct PrefixSet {
    automaton: AhoCorasick,
}

/// The patterns an anchored automaton was built from, as bytes.
pub uninterp spec fn ac_patterns(ac: PrefixSet) -> Seq<Seq<u8>>;

/// Whether some pattern is a prefix of `hay`.
pub open spec fn some_prefix(patterns: Seq<Seq<u8>>, hay: Seq<u8>) -> bool {
    exists|i: int| 0 <= i < patterns.len() && #[trigger] patterns[i].len() <= hay.len()
        && hay.take(patterns[i].len() as int) == patterns[i]
}

pub open spec fn strings_bytes(ps: Seq<String>) -> Seq<Seq<u8>> {
    ps.map_values(|p: String| encode_utf8(p@))
}

/// `AhoCorasickBuilder::new().auto_configure(..).anchored(true).build(..)`:
/// an automaton for the patterns that only matches at the start.
#[verifier::external_body]
fn build_anchored(patterns: &Vec<String>) -> (r: PrefixSet)
    ensures
        ac_patterns(r) == strings_bytes(patterns@),
{
    PrefixSet { automaton: AhoCorasickBuilder::new().auto_configure(patterns).anchored(true).build(patterns) }
}

/// `AhoCorasick::is_match` on an anchored automaton: whether some pattern
/// matches at the start of `hay`.
#[verifier::external_body]
fn ac_is_match(ac: &PrefixSet, hay: &str) -> (r: bool)
    ensures
        r == some_prefix(ac_patterns(*ac), encode_utf8(hay@)),
{
    ac.automaton.is_match(hay)
}

/// Whether a `/prefix` entry under the head octet matches the last three
/// octets of an address: the same bits under the mask
/// `!(0xffff_ffff >> prefix)` of the whole address.
pub open spec fn tail_matches(prefix: u8, tail: u32, ip: u32) -> bool {
    let mask = (!(0xffff_ffffu64 >> (prefix as u64))) as u32;
    ((ip & 0x00ff_ffff) & mask) == (tail & mask)
}

/// IPv4 networks, by their first octet: under each, the prefix and the
/// other three octets of each network.
#[derive(Debug)]
pub struct Ipv4List {
    pub map: HashMap<u8, Vec<(u8, u32)>>,
}

impl Ipv4List {
    /// Every prefix is below 64.
    pub open spec fn wf(&self) -> bool {
        forall|k: u8, j: int| self.map@.contains_key(k) && 0 <= j < self.map@[k]@.len()
            ==> (#[trigger] self.map@[k]@[j]).0 < 64
    }

    /// The entries under first octet `h` (none where it has no entry).
    pub open spec fn bucket(&self, h: int) -> Seq<(u8, u32)> {
        if self.map@.contains_key(h as u8) { self.map@[h as u8]@ } else { Seq::empty() }
    }

    /// Whether `ip` falls in a network of the list.
    pub open spec fn spec_is_match(&self, ip: u32) -> bool {
        let b = self.bucket((ip / 0x100_0000) as int);
        exists|j: int| 0 <= j < b.len() && tail_matches((#[trigger] b[j]).0, b[j].1, ip)
    }

    pub fn new() -> (r: Self)
        ensures
            r.wf(),
            forall|h: int| 0 <= h < 256 ==> (#[trigger] r.bucket(h)).len() == 0,
    {
        Ipv4List { map: HashMap::with_capacity(64) }
    }

    /// Adds the network `addr/prefix`, by its first octet and the rest.
    pub fn insert(&mut self, addr: u32, prefix: u8)
        requires
            old(self).wf(),
            prefix < 64,
        ensures
            final(self).wf(),
            forall|h: int| 0 <= h < 256 && h != addr / 0x100_0000 ==> #[trigger] final(self).bucket(h) == old(self).bucket(h),
            final(self).bucket((addr / 0x100_0000) as int) == old(self).bucket((addr / 0x100_0000) as int).push((prefix, addr % 0x100_0000)),
            8 <= prefix <= 32 ==> forall|ip: u32| #[trigger] final(self).spec_is_match(ip)
                == (old(self).spec_is_match(ip) || ((ip ^ addr) >> ((32 - prefix) as u32)) == 0),
    {
        broadcast use vstd::std_specs::hash::group_hash_axioms;
        let head = (addr / 0x100_0000) as u8;
        let tail = addr % 0x100_0000;
        let mut bucket = match self.map.remove(&head) {
            Some(v) => v,
            None => Vec::new(),
        };
        let ghost before = bucket@;
        assert(before == old(self).bucket((addr / 0x100_0000) as int));
        bucket.push((prefix, tail));
        self.map.insert(head, bucket);
        assert forall|h: int| 0 <= h < 256 && h != addr / 0x100_0000 implies #[trigger] self.bucket(h) == old(self).bucket(h) by {
            assert(h as u8 != head);
        }
        assert forall|k: u8, j: int| self.map@.contains_key(k) && 0 <= j < self.map@[k]@.len()
            implies (#[trigger] self.map@[k]@[j]).0 < 64 by {
            if k != head {
                assert(self.map@[k] == old(self).map@[k]);
            } else if j < before.len() {
                assert(self.map@[k]@[j] == before[j]);
            }
        }
        proof {
            if 8 <= prefix <= 32 {
                assert forall|ip: u32| #[trigger] self.spec_is_match(ip)
                    == (old(self).spec_is_match(ip) || ((ip ^ addr) >> ((32 - prefix) as u32)) == 0) by {
                    lemma_ipv4_insert(*old(self), *self, addr, prefix, ip);
                }
            }
        }
    }

    /// Whether `ip` falls in a network of the list.
    pub fn is_match(&self, ip: u32) -> (r: bool)
        requires
            self.wf(),
        ensures
            r == self.spec_is_match(ip),
    {
        broadcast use vstd::std_specs::hash::group_hash_axioms;
        let head = (ip / 0x100_0000) as u8;
        let ip_tail = ip & 0x00ff_ffff;
        let bucket = match self.map.get(&head) {
            Some(b) => b,
            None => return false,
        };
        assert(bucket@ == self.bucket((ip / 0x100_0000) as int));
        let mut j: usize = 0;
        while j < bucket.len()
            invariant
                j <= bucket@.len(),
                bucket@ == self.bucket((ip / 0x100_0000) as int),
                forall|k: int| 0 <= k < bucket@.len() ==> (#[trigger] bucket@[k]).0 < 64,
                ip_tail == ip & 0x00ff_ffff,
                forall|k: int| 0 <= k < j ==> !tail_matches((#[trigger] bucket@[k]).0, bucket@[k].1, ip),
            decreases bucket.len() - j,
        {
            let (prefix, tail) = bucket[j];
            assert(prefix < 64);
            let wide: u64 = !(0xffff_ffffu64 >> prefix);
            let mask = #[verifier::truncate] (wide as u32);
            let net = tail & mask;
            if ip_tail & mask == net {
                assert(tail_matches(bucket@[j as int].0, bucket@[j as int].1, ip));
                return true;
            }
            j = j + 1;
        }
        false
    }
}

/// Inserting the network `addr/prefix` (8 to 32 bits) into a list keeps
/// every address it matched and adds exactly the addresses of that
/// network: those that agree with `addr` in their first `prefix` bits.
pub proof fn lemma_ipv4_insert(before: Ipv4List, after: Ipv4List, addr: u32, prefix: u8, ip: u32)
    requires
        before.wf(),
        after.wf(),
        8 <= prefix <= 32,
        forall|h: int| 0 <= h < 256 && h != addr / 0x100_0000 ==> #[trigger] after.bucket(h) == before.bucket(h),
        after.bucket((addr / 0x100_0000) as int) == before.bucket((addr / 0x100_0000) as int).push((prefix, addr % 0x100_0000)),
    ensures
        after.spec_is_match(ip) == (before.spec_is_match(ip) || ((ip ^ addr) >> ((32 - prefix) as u32)) == 0),
{
    let h = (ip / 0x100_0000) as int;
    let ha = (addr / 0x100_0000) as int;
    let s = (32 - prefix) as u32;
    assert(((ip ^ addr) >> s) == 0 <==> (addr >> s) == (ip >> s)) by (bit_vector)
        requires s <= 24;
    assert(ip / 0x100_0000 == ip >> 24) by (bit_vector);
    assert(addr / 0x100_0000 == addr >> 24) by (bit_vector);
    assert((addr >> s) == (ip >> s) ==> (addr >> 24) == (ip >> 24)) by (bit_vector)
        requires s <= 24;
    assert(0 <= h < 256) by {
        assert(ip / 0x100_0000 < 256);
    }
    if h != ha {
        assert(after.bucket(h) == before.bucket(h));
        assert(((ip ^ addr) >> s) != 0);
    } else {
        lemma_tail_matches_cidr(addr, ip, prefix);
        let b0 = before.bucket(h);
        let b1 = after.bucket(h);
        assert(b1 == b0.push((prefix, addr % 0x100_0000)));
        assert(crate::router::matching::same_prefix32(addr, ip, prefix) == ((addr >> s) == (ip >> s)));
        if after.spec_is_match(ip) {
            let j = choose|j: int| 0 <= j < b1.len() && tail_matches((#[trigger] b1[j]).0, b1[j].1, ip);
            if j < b0.len() {
                assert(b1[j] == b0[j]);
            }
        }
        if before.spec_is_match(ip) {
            let j = choose|j: int| 0 <= j < b0.len() && tail_matches((#[trigger] b0[j]).0, b0[j].1, ip);
            assert(b1[j] == b0[j]);
        }
        if ((ip ^ addr) >> s) == 0 {
            assert(b1[b0.len() as int] == (prefix, addr % 0x100_0000));
            assert(tail_matches(b1[b0.len() as int].0, b1[b0.len() as int].1, ip));
        }
    }
}

/// For prefixes of 8 to 32 bits, an entry under the head octet of an
/// address matches exactly the addresses of its network.
proof fn lemma_tail_matches_cidr(a: u32, ip: u32, p: u8)
    requires
        8 <= p <= 32,
    ensures
        (ip / 0x100_0000 == a / 0x100_0000 && tail_matches(p, a % 0x100_0000, ip))
            <==> crate::router::matching::same_prefix32(a, ip, p),
{
    assert(ip / 0x100_0000 == ip >> 24) by (bit_vector);
    assert(a / 0x100_0000 == a >> 24) by (bit_vector);
    assert(a % 0x100_0000 == a & 0x00ff_ffff) by (bit_vector);
    assert(
        ((ip >> 24) == (a >> 24) && ((ip & 0x00ff_ffff) & ((!(0xffff_ffffu64 >> (p as u64))) as u32))
            == ((a & 0x00ff_ffff) & ((!(0xffff_ffffu64 >> (p as u64))) as u32)))
        <==> (a >> ((32 - p) as u32)) == (ip >> ((32 - p) as u32))
    ) by (bit_vector)
        requires
            8 <= p <= 32,
    ;
}

/// The network that entry `(prefix, tail)` under head octet `h` stands for.
pub open spec fn entry_network(h: int, tail: u32) -> u32 {
    (h * 0x100_0000 + tail) as u32
}

/// With every prefix between 8 and 32 bits, the list matches exactly the
/// addresses that lie in one of its networks.
pub proof fn lemma_ipv4_list_is_cidr_union(list: &Ipv4List, ip: u32)
    requires
        list.wf(),
        forall|h: int, j: int| 0 <= h < 256 && 0 <= j < list.bucket(h).len() ==> {
            &&& 8 <= (#[trigger] list.bucket(h)[j]).0 <= 32
            &&& list.bucket(h)[j].1 < 0x100_0000
        },
    ensures
        list.spec_is_match(ip) <==> exists|h: int, j: int| 0 <= h < 256 && 0 <= j < list.bucket(h).len()
            && crate::router::matching::same_prefix32(entry_network(h, (#[trigger] list.bucket(h)[j]).1), ip, list.bucket(h)[j].0),
{
    let hi = (ip / 0x100_0000) as int;
    if list.spec_is_match(ip) {
        let b = list.bucket(hi);
        let j = choose|j: int| 0 <= j < b.len() && tail_matches((#[trigger] b[j]).0, b[j].1, ip);
        let a = entry_network(hi, b[j].1);
        assert(a / 0x100_0000 == hi && a % 0x100_0000 == b[j].1);
        lemma_tail_matches_cidr(a, ip, b[j].0);
    }
    if exists|h: int, j: int| 0 <= h < 256 && 0 <= j < list.bucket(h).len()
        && crate::router::matching::same_prefix32(entry_network(h, (#[trigger] list.bucket(h)[j]).1), ip, list.bucket(h)[j].0) {
        let (h, j) = choose|h: int, j: int| 0 <= h < 256 && 0 <= j < list.bucket(h).len()
            && crate::router::matching::same_prefix32(entry_network(h, (#[trigger] list.bucket(h)[j]).1), ip, list.bucket(h)[j].0);
        let e = list.bucket(h)[j];
        let a = entry_network(h, e.1);
        assert(a / 0x100_0000 == h && a % 0x100_0000 == e.1);
        lemma_tail_matches_cidr(a, ip, e.0);
        assert(tail_matches(list.bucket(hi)[j].0, list.bucket(hi)[j].1, ip));
    }
}

/// A loaded rule list.
#[derive(Debug)]
pub enum RuleSet {
    Domain {
        full_domains: Vec<String>,
        keywords: Vec<String>,
        regexes: Vec<Regex>,
        domains: PrefixSet,
    },
    Ip {
        v4: Ipv4List,
    },
}

/// Whether `d` is one of the names.
pub open spec fn names_contain(names: Seq<String>, d: Seq<char>) -> bool {
    exists|i: int| 0 <= i < names.len() && (#[trigger] names[i])@ == d
}

/// Whether one of the expressions matches `d`.
pub open spec fn some_regex_matches(res: Seq<Regex>, d: Seq<char>) -> bool {
    exists|i: int| 0 <= i < res.len() && regex_matches(regex_source(#[trigger] res[i]), d)
}

/// Whether `d` contains one of the keywords.
pub open spec fn some_keyword_in(kws: Seq<String>, d: Seq<char>) -> bool {
    exists|i: int| 0 <= i < kws.len() && contains_seq(d, (#[trigger] kws[i])@)
}

impl RuleSet {
    pub open spec fn wf(&self) -> bool {
        self matches RuleSet::Ip { v4 } ==> v4.wf()
    }

    /// Whether the list matches a destination: a domain list by its name
    /// (the name or a parent domain listed, an exact name, an expression or
    /// a keyword), an address list by its IPv4 address; each only where
    /// the mode lets it look.
    pub open spec fn spec_is_match(&self, dest: DestView, mode: MatchMode) -> bool {
        match (self, dest.domain, dest.ip) {
            (RuleSet::Domain { full_domains, keywords, regexes, domains }, Some(d), _) =>
                mode.spec_domain() && (
                    some_prefix(ac_patterns(*domains), encode_utf8(spec_reversed_fqdn(d)))
                    || names_contain(full_domains@, d)
                    || some_regex_matches(regexes@, d)
                    || some_keyword_in(keywords@, d)),
            (RuleSet::Ip { v4 }, _, Some(ip)) => mode.spec_ip() && match ip {
                IpAddr::V4(a) => v4.spec_is_match(a),
                IpAddr::V6(_) => false,
            },
            _ => false,
        }
    }

    pub fn is_match(&self, dest: &DestAddr, mode: MatchMode) -> (r: bool)
        requires
            self.wf(),
        ensures
            r == self.spec_is_match(dest@, mode),
    {
        match self {
            RuleSet::Domain { full_domains, keywords, regexes, domains } => match &dest.domain {
                Some(d) => {
                    if !mode.domain() {
                        return false;
                    }
                    let rev = to_reversed_fqdn(d.as_str());
                    if ac_is_match(domains, rev.as_str()) {
                        return true;
                    }
                    names_contain_exec(full_domains, d) || regexes_match(regexes, d) || keywords_in(keywords, d)
                },
                None => false,
            },
            RuleSet::Ip { v4 } => match &dest.ip {
                Some(IpAddr::V4(a)) => mode.ip() && v4.is_match(*a),
                Some(IpAddr::V6(_)) => false,
                None => false,
            },
        }
    }
}

fn names_contain_exec(names: &Vec<String>, d: &String) -> (r: bool)
    ensures
        r == names_contain(names@, d@),
{
    let mut i: usize = 0;
    while i < names.len()
        invariant
            i <= names@.len(),
            forall|k: int| 0 <= k < i ==> (#[trigger] names@[k])@ != d@,
        decreases names.len() - i,
    {
        if names[i] == *d {
            return true;
        }
        i = i + 1;
    }
    false
}

fn regexes_match(res: &Vec<Regex>, d: &String) -> (r: bool)
    ensures
        r == some_regex_matches(res@, d@),
{
    let mut i: usize = 0;
    while i < res.len()
        invariant
            i <= res@.len(),
            forall|k: int| 0 <= k < i ==> !regex_matches(regex_source(#[trigger] res@[k]), d@),
        decreases res.len() - i,
    {
        if regex_is_match(&res[i], d.as_str()) {
            return true;
        }
        i = i + 1;
    }
    false
}

fn keywords_in(kws: &Vec<String>, d: &String) -> (r: bool)
    ensures
        r == some_keyword_in(kws@, d@),
{
    let dc = chars_of(d.as_str());
    let mut i: usize = 0;
    while i < kws.len()
        invariant
            i <= kws@.len(),
            dc@ == d@,
            forall|k: int| 0 <= k < i ==> !contains_seq(d@, (#[trigger] kws@[k])@),
        decreases kws.len() - i,
    {
        let kc = chars_of(kws[i].as_str());
        if contains(dc.as_slice(), kc.as_slice()) {
            return true;
        }
        i = i + 1;
    }
    false
}

/// The kinds of domain entries in a site list.
#[derive(Debug, Clone, Copy, PartialEq, Eq, Structural)]
pub enum DomainType {
    Plain,
    Pattern,
    Domain,
    Full,
}

/// One entry of a site list.
#[derive(Debug, Clone)]
pub struct DomainEntry {
    pub type_pb: DomainType,
    pub value: String,
}

/// A site list: its code and its domain entries.
#[derive(Debug, Clone)]
pub struct GeoSite {
    pub country_code: String,
    pub domain: Vec<DomainEntry>,
}

/// An address list: its code and its networks (address bytes and prefix).
#[derive(Debug, Clone)]
pub struct GeoIP {
    pub country_code: String,
    pub cidr: Vec<(Vec<u8>, u32)>,
}

/// Why a rule list could not be built.
#[derive(Debug, Clone, Copy, PartialEq, Eq, Structural)]
pub enum RuleSetError {
    /// A regular expression entry does not compile.
    InvalidRegex,
    /// A network prefix is too long to match with.
    PrefixTooLong,
}

/// The entries of the given type, in order.
pub open spec fn entries_of(es: Seq<DomainEntry>, t: DomainType) -> Seq<Seq<char>>
    decreases es.len(),
{
    if es.len() == 0 {
        Seq::empty()
    } else if es.last().type_pb == t {
        entries_of(es.drop_last(), t).push(es.last().value@)
    } else {
        entries_of(es.drop_last(), t)
    }
}

pub open spec fn strings_view(ss: Seq<String>) -> Seq<Seq<char>> {
    ss.map_values(|s: String| s@)
}

/// Each domain reversed, as `to_reversed_fqdn` gives it.
pub open spec fn reversed_all(ds: Seq<Seq<char>>) -> Seq<Seq<char>> {
    ds.map_values(|d: Seq<char>| spec_reversed_fqdn(d))
}

/// Each domain reversed and encoded: the patterns of a domain list.
pub open spec fn reversed_patterns(ds: Seq<Seq<char>>) -> Seq<Seq<u8>> {
    ds.map_values(|d: Seq<char>| encode_utf8(spec_reversed_fqdn(d)))
}

pub open spec fn regexes_view(rs: Seq<Regex>) -> Seq<Seq<char>> {
    rs.map_values(|r: Regex| regex_source(r))
}

/// What building from a site list gives: a domain list exactly when every
/// expression entry compiles, with the full names, the keywords, the
/// expressions and the reversed domains of the entries, in order.
pub open spec fn geosite_outcome(site: GeoSite, r: Result<RuleSet, RuleSetError>) -> bool {
    &&& (forall|i: int| 0 <= i < entries_of(site.domain@, DomainType::Pattern).len()
        ==> regex_valid(#[trigger] entries_of(site.domain@, DomainType::Pattern)[i])) <==> r is Ok
    &&& r matches Err(e) ==> e == RuleSetError::InvalidRegex
    &&& r matches Ok(rs) ==> rs.wf() && match rs {
        RuleSet::Domain { full_domains, keywords, regexes, domains } => {
            &&& strings_view(full_domains@) == entries_of(site.domain@, DomainType::Full)
            &&& strings_view(keywords@) == entries_of(site.domain@, DomainType::Plain)
            &&& regexes_view(regexes@) == entries_of(site.domain@, DomainType::Pattern)
            &&& ac_patterns(domains) == reversed_patterns(entries_of(site.domain@, DomainType::Domain))
        },
        RuleSet::Ip { .. } => false,
    }
}

/// What building from an address list gives: an address list exactly when
/// no four-byte network has a prefix of 64 or more (as a byte), holding
/// each four-byte network under its first byte.
pub open spec fn geoip_outcome(geo: GeoIP, r: Result<RuleSet, RuleSetError>) -> bool {
    &&& r is Err <==> exists|j: int| 0 <= j < geo.cidr@.len() && #[trigger] prefix_too_long(geo.cidr@[j])
    &&& r matches Err(e) ==> e == RuleSetError::PrefixTooLong
    &&& r matches Ok(rs) ==> rs.wf() && match rs {
        RuleSet::Ip { v4 } => forall|h: int| 0 <= h < 256 ==> #[trigger] v4.bucket(h) == bucket_of(geo.cidr@, h),
        _ => false,
    }
}

impl RuleSet {
    /// Builds a domain list from a site list: plain entries become keywords,
    /// regex entries expressions, domain entries reversed-name prefixes, full
    /// entries exact names.
    pub fn from_geosite(site: &GeoSite) -> (r: Result<RuleSet, RuleSetError>)
        ensures
            geosite_outcome(*site, r),
    {
        let mut full_domains: Vec<String> = Vec::new();
        let mut keywords: Vec<String> = Vec::new();
        let mut domains: Vec<String> = Vec::new();
        let mut regexes: Vec<Regex> = Vec::new();
        let es = &site.domain;
        let mut i: usize = 0;
        while i < es.len()
            invariant
                i <= es@.len(),
                es@ == site.domain@,
                strings_view(full_domains@) == entries_of(es@.take(i as int), DomainType::Full),
                strings_view(keywords@) == entries_of(es@.take(i as int), DomainType::Plain),
                regexes_view(regexes@) == entries_of(es@.take(i as int), DomainType::Pattern),
                strings_view(domains@) == reversed_all(entries_of(es@.take(i as int), DomainType::Domain)),
                forall|k: int| 0 <= k < entries_of(es@.take(i as int), DomainType::Pattern).len()
                    ==> regex_valid(#[trigger] entries_of(es@.take(i as int), DomainType::Pattern)[k]),
            decreases es.len() - i,
        {
            let ghost pre = es@.take(i as int);
            let ghost cur = es@.take(i + 1);
            assert(cur.drop_last() == pre);
            assert(cur.last() == es@[i as int]);
            let e = &es[i];
            match e.type_pb {
                DomainType::Plain => {
                    keywords.push(e.value.clone());
                    assert(strings_view(keywords@) == strings_view(keywords@).drop_last().push(e.value@));
                },
                DomainType::Pattern => {
                    match regex_new(e.value.as_str()) {
                        Some(re) => {
                            regexes.push(re);
                            assert(regexes_view(regexes@) == regexes_view(regexes@).drop_last().push(e.value@));
                        },
                        None => {
                            proof {
                                assert(es@[i as int] == *e);
                                lemma_regex_invalid_stays(es@, i as int + 1);
                                assert(es@ == site.domain@);
                                let k = choose|k: int| 0 <= k < entries_of(es@, DomainType::Pattern).len()
                                    && !regex_valid(#[trigger] entries_of(es@, DomainType::Pattern)[k]);
                                assert(!regex_valid(entries_of(site.domain@, DomainType::Pattern)[k]));
                                let n = entries_of(cur, DomainType::Pattern).len();
                                assert(entries_of(cur, DomainType::Pattern)[n - 1] == e.value@);
                            }
                            return Err(RuleSetError::InvalidRegex);
                        },
                    }
                },
                DomainType::Domain => {
                    domains.push(to_reversed_fqdn(e.value.as_str()));
                    assert(entries_of(cur, DomainType::Domain) == entries_of(pre, DomainType::Domain).push(e.value@));
                    assert(reversed_all(entries_of(cur, DomainType::Domain))
                        =~= reversed_all(entries_of(pre, DomainType::Domain)).push(spec_reversed_fqdn(e.value@)));
                    assert(strings_view(domains@) =~= strings_view(domains@).drop_last().push(spec_reversed_fqdn(e.value@)));
                },
                DomainType::Full => {
                    full_domains.push(e.value.clone());
                    assert(strings_view(full_domains@) == strings_view(full_domains@).drop_last().push(e.value@));
                },
            }
            i = i + 1;
        }
        assert(es@.take(i as int) == es@);
        let ac = build_anchored(&domains);
        assert(strings_bytes(domains@) =~= reversed_patterns(entries_of(es@, DomainType::Domain))) by {
            let ds = entries_of(es@, DomainType::Domain);
            assert forall|k: int| 0 <= k < ds.len() implies
                #[trigger] strings_bytes(domains@)[k] == reversed_patterns(ds)[k] by {
                assert(strings_view(domains@)[k] == reversed_all(ds)[k]);
            }
        }
        Ok(RuleSet::Domain { full_domains, keywords, regexes, domains: ac })
    }

    /// Builds an address list from the IPv4 networks of an address list;
    /// entries of another length are skipped. The prefix is taken modulo
    /// 256, as a byte; a prefix of 64 or more cannot be matched with and is
    /// refused.
    pub fn from_geoip(geo: &GeoIP) -> (r: Result<RuleSet, RuleSetError>)
        ensures
            geoip_outcome(*geo, r),
    {
        let mut list = Ipv4List::new();
        let mut i: usize = 0;
        while i < geo.cidr.len()
            invariant
                i <= geo.cidr@.len(),
                list.wf(),
                forall|j: int| 0 <= j < i ==> !#[trigger] prefix_too_long(geo.cidr@[j]),
                forall|h: int| 0 <= h < 256 ==> #[trigger] list.bucket(h) == bucket_of(geo.cidr@.take(i as int), h),
            decreases geo.cidr.len() - i,
        {
            let ghost pre = geo.cidr@.take(i as int);
            let ghost cur = geo.cidr@.take(i + 1);
            assert(cur.drop_last() == pre);
            assert(cur.last() == geo.cidr@[i as int]);
            let ip = &geo.cidr[i].0;
            let prefix: u32 = geo.cidr[i].1;
            if ip.len() == 4 {
                let addr: u32 = (ip[0] as u32) * 0x100_0000 + (ip[1] as u32) * 0x1_0000 + (ip[2] as u32) * 0x100 + ip[3] as u32;
                let p = (prefix % 256) as u8;
                if p >= 64 {
                    assert(prefix_too_long(geo.cidr@[i as int]));
                    return Err(RuleSetError::PrefixTooLong);
                }
                proof {
                    let (b0, b1, b2, b3) = (ip@[0], ip@[1], ip@[2], ip@[3]);
                    assert(addr / 0x100_0000 == b0 && addr % 0x100_0000 == b1 * 0x1_0000 + b2 * 0x100 + b3)
                        by (nonlinear_arith)
                        requires
                            addr == b0 * 0x100_0000 + b1 * 0x1_0000 + b2 * 0x100 + b3,
                            b0 < 256, b1 < 256, b2 < 256, b3 < 256,
                    ;
                }
                list.insert(addr, p);
            }
            i = i + 1;
        }
        assert(geo.cidr@.take(i as int) == geo.cidr@);
        Ok(RuleSet::Ip { v4: list })
    }
}

/// A four-byte network whose prefix, taken as a byte, is 64 or more.
pub open spec fn prefix_too_long(c: (Vec<u8>, u32)) -> bool {
    c.0@.len() == 4 && c.1 % 256 >= 64
}

/// The last three bytes of an IPv4 address as one number.
pub open spec fn addr_tail(ip: Seq<u8>) -> u32 {
    (ip[1] * 0x1_0000 + ip[2] * 0x100 + ip[3]) as u32
}

/// The `(prefix, tail)` entries that the four-byte networks with first
/// byte `h` give, in order.
pub open spec fn bucket_of(cs: Seq<(Vec<u8>, u32)>, h: int) -> Seq<(u8, u32)>
    decreases cs.len(),
{
    if cs.len() == 0 {
        Seq::empty()
    } else {
        let c = cs.last();
        let rest = bucket_of(cs.drop_last(), h);
        if c.0@.len() == 4 && c.0@[0] == h {
            rest.push(((c.1 % 256) as u8, addr_tail(c.0@)))
        } else {
            rest
        }
    }
}

proof fn lemma_regex_invalid_stays(es: Seq<DomainEntry>, i: int)
    requires
        0 < i <= es.len(),
        es[i - 1].type_pb == DomainType::Pattern,
        !regex_valid(es[i - 1].value@),
    ensures
        exists|k: int| 0 <= k < entries_of(es, DomainType::Pattern).len()
            && !regex_valid(#[trigger] entries_of(es, DomainType::Pattern)[k]),
    decreases es.len(),
{
    if i < es.len() {
        lemma_regex_invalid_stays(es.drop_last(), i);
        let k = choose|k: int| 0 <= k < entries_of(es.drop_last(), DomainType::Pattern).len()
            && !regex_valid(#[trigger] entries_of(es.drop_last(), DomainType::Pattern)[k]);
        assert(es.drop_last()[i - 1] == es[i - 1]);
        if es.last().type_pb == DomainType::Pattern {
            assert(entries_of(es, DomainType::Pattern)[k] == entries_of(es.drop_last(), DomainType::Pattern)[k]);
        }
        assert(!regex_valid(entries_of(es, DomainType::Pattern)[k]));
    } else {
        let n = entries_of(es, DomainType::Pattern).len();
        assert(entries_of(es, DomainType::Pattern)[n - 1] == es[i - 1].value@);
        assert(!regex_valid(entries_of(es, DomainType::Pattern)[n - 1]));
    }
}

/// A domain list matches every name that is one of its domains or lies
/// under one (looked at by name, where the mode lets it).
pub proof fn lemma_listed_domain_matches(rs: RuleSet, dom: Seq<char>, dest: DestView, mode: MatchMode)
    requires
        rs matches RuleSet::Domain { domains, .. }
            && ac_patterns(domains).contains(encode_utf8(spec_reversed_fqdn(dom))),
        dest.domain matches Some(name) && is_suffix(split_on(dom, '.'), split_on(name, '.')),
        mode.spec_domain(),
    ensures
        rs.spec_is_match(dest, mode),
{
    let name = dest.domain->Some_0;
    if let RuleSet::Domain { full_domains, keywords, regexes, domains } = rs {
        lemma_reversed_fqdn_prefix(dom, name);
        let p = spec_reversed_fqdn(dom);
        let n = spec_reversed_fqdn(name);
        assert(n == p + n.skip(p.len() as int));
        lemma_encode_utf8_concat(p, n.skip(p.len() as int));
        let pats = ac_patterns(domains);
        let k = choose|k: int| 0 <= k < pats.len() && pats[k] == encode_utf8(p);
        let hay = encode_utf8(n);
        assert(hay.take(pats[k].len() as int) =~= pats[k]);
        assert(some_prefix(pats, hay));
    }
}

} // verus!
