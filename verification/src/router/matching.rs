//! Matching connections against routing conditions.
pub mod domain;

use vstd::prelude::*;
use crate::net::{DestAddr, DestView, IpAddr};
use crate::text::{chars_of, find, literal, slice_to_vec, string_from_chars, lemma_find_from};
use domain::{DomainCondition, rule_matches};

verus! {

/// Hints which properties of a connection the matchers should look at.
#[derive(Debug, Clone, Copy, PartialEq, Eq, Structural)]
pub enum MatchMode {
    Any,
    IpOnly,
    DomainOnly,
}

impl MatchMode {
    pub open spec fn spec_ip(self) -> bool {
        !(self is DomainOnly)
    }

    pub open spec fn spec_domain(self) -> bool {
        !(self is IpOnly)
    }

    /// Whether IP addresses are to be considered.
    pub fn ip(&self) -> (r: bool)
        ensures
            r == self.spec_ip(),
    {
        match self {
            MatchMode::Any => true,
            MatchMode::IpOnly => true,
            MatchMode::DomainOnly => false,
        }
    }

    /// Whether domain names are to be considered.
    pub fn domain(&self) -> (r: bool)
        ensures
            r == self.spec_domain(),
    {
        match self {
            MatchMode::Any => true,
            MatchMode::IpOnly => false,
            MatchMode::DomainOnly => true,
        }
    }
}

/// A condition on the destination port: one port, or an inclusive range.
#[derive(Debug, Clone, Copy, PartialEq, Eq, Structural)]
pub enum PortCondition {
    Port(u16),
    Range(u16, u16),
}

impl PortCondition {
    pub open spec fn spec_is_match(self, port: u16) -> bool {
        match self {
            PortCondition::Port(expected) => expected == port,
            PortCondition::Range(l, r) => l <= port <= r,
        }
    }

    pub fn is_match(&self, port: u16) -> (r: bool)
        ensures
            r == self.spec_is_match(port),
    {
        match self {
            PortCondition::Port(expected) => *expected == port,
            PortCondition::Range(l, r) => port >= *l && port <= *r,
        }
    }
}

/// The transport of a connection.
#[derive(Debug, Clone, Copy, PartialEq, Eq, Structural)]
pub enum TransportType {
    Tcp,
    Udp,
}

/// What the routing rules look at in a connection.
#[derive(Debug, Clone)]
pub struct Connection {
    pub src_ip: IpAddr,
    pub dest_addr: DestAddr,
    pub typ: TransportType,
    pub inbound_tag: String,
}

/// The abstract value of a connection as the rules see it.
pub struct ConnView {
    pub src_ip: IpAddr,
    pub dest: DestView,
    pub typ: TransportType,
    pub inbound_tag: Seq<char>,
}

impl View for Connection {
    type V = ConnView;

    open spec fn view(&self) -> ConnView {
        ConnView { src_ip: self.src_ip, dest: self.dest_addr@, typ: self.typ, inbound_tag: self.inbound_tag@ }
    }
}

/// An IP network: an address and the number of leading bits that count.
#[derive(Debug, Clone, Copy, PartialEq, Eq, Structural)]
pub enum IpNet {
    V4 { addr: u32, prefix: u8 },
    V6 { addr: u128, prefix: u8 },
}

/// Whether `a` and `b` agree in their first `p` of 32 bits.
pub open spec fn same_prefix32(a: u32, b: u32, p: u8) -> bool {
    p == 0 || (a >> ((32 - p) as u32)) == (b >> ((32 - p) as u32))
}

/// Whether `a` and `b` agree in their first `p` of 128 bits.
pub open spec fn same_prefix128(a: u128, b: u128, p: u8) -> bool {
    p == 0 || (a >> ((128 - p) as u128)) == (b >> ((128 - p) as u128))
}

impl IpNet {
    /// The prefix fits the address family.
    pub open spec fn wf(self) -> bool {
        match self {
            IpNet::V4 { prefix, .. } => prefix <= 32,
            IpNet::V6 { prefix, .. } => prefix <= 128,
        }
    }

    /// Whether the network holds `ip`: the same family and the same leading
    /// prefix bits.
    pub open spec fn spec_contains(self, ip: IpAddr) -> bool {
        match (self, ip) {
            (IpNet::V4 { addr, prefix }, IpAddr::V4(a)) => same_prefix32(addr, a, prefix),
            (IpNet::V6 { addr, prefix }, IpAddr::V6(a)) => same_prefix128(addr, a, prefix),
            _ => false,
        }
    }

    pub fn contains(&self, ip: &IpAddr) -> (r: bool)
        requires
            self.wf(),
        ensures
            r == self.spec_contains(*ip),
    {
        match (self, ip) {
            (IpNet::V4 { addr, prefix }, IpAddr::V4(a)) => {
                *prefix == 0 || (*addr >> (32 - *prefix) as u32) == (*a >> (32 - *prefix) as u32)
            },
            (IpNet::V6 { addr, prefix }, IpAddr::V6(a)) => {
                *prefix == 0 || (*addr >> (128 - *prefix) as u128) == (*a >> (128 - *prefix) as u128)
            },
            _ => false,
        }
    }
}

/// A condition on an IP address: one address, or a network.
#[derive(Debug, Clone, Copy, PartialEq, Eq, Structural)]
pub enum IpMatchCondition {
    Addr(IpAddr),
    Cidr(IpNet),
}

impl IpMatchCondition {
    pub open spec fn wf(self) -> bool {
        self matches IpMatchCondition::Cidr(n) ==> n.wf()
    }

    pub open spec fn spec_is_match(self, addr: IpAddr) -> bool {
        match self {
            IpMatchCondition::Addr(a) => a == addr,
            IpMatchCondition::Cidr(n) => n.spec_contains(addr),
        }
    }

    pub fn is_match(&self, addr: &IpAddr) -> (r: bool)
        requires
            self.wf(),
        ensures
            r == self.spec_is_match(*addr),
    {
        match self {
            IpMatchCondition::Addr(a) => *a == *addr,
            IpMatchCondition::Cidr(n) => n.contains(addr),
        }
    }
}

/// A rule that asks a rule provider: the provider's tag and the list in it.
#[derive(Debug, Clone)]
pub struct ProviderCondition {
    pub tag: String,
    pub sub: String,
}

/// What `tag:sub` splits into: the text before the first `:` and the rest.
pub open spec fn spec_parse_provider(s: Seq<char>) -> Option<(Seq<char>, Seq<char>)> {
    match crate::text::find_from(s, seq![':'], 0) {
        Some(i) => Some((s.take(i), s.skip(i + 1))),
        None => None,
    }
}

impl ProviderCondition {
    /// Reads `tag:sub`; `None` where there is no `:`.
    pub fn from_str(s: &str) -> (r: Option<ProviderCondition>)
        ensures
            match spec_parse_provider(s@) {
                Some((t, u)) => r matches Some(c) && c.tag@ == t && c.sub@ == u,
                None => r is None,
            },
    {
        let cs = chars_of(s);
        let colon = [':'];
        assert(colon@ == seq![':']);
        match find(cs.as_slice(), &colon, 0) {
            Some(i) => {
                proof {
                    lemma_find_from(cs@, colon@, 0);
                }
                assert(crate::text::occurs_at(cs@, colon@, i as int));
                let n = cs.len();
                let tag = string_from_chars(slice_to_vec(cs.as_slice(), 0, i).as_slice());
                let sub = string_from_chars(slice_to_vec(cs.as_slice(), i + 1, n).as_slice());
                assert(cs@.subrange(i + 1, n as int) == cs@.skip(i + 1));
                Some(ProviderCondition { tag, sub })
            },
            None => None,
        }
    }
}

/// The condition of a routing rule.
#[derive(Debug)]
pub enum MatchCondition {
    Any(Vec<MatchCondition>),
    All(Vec<MatchCondition>),
    DestIp(IpMatchCondition),
    SrcIp(IpMatchCondition),
    DestPort(PortCondition),
    Domain(DomainCondition),
    Transport(TransportType),
    InboundName(String),
    Provider(ProviderCondition),
}

/// The outcome of evaluating a condition: an answer, or the rule provider
/// question whose answer is needed first.
pub enum EvalView {
    Done(bool),
    Need(Seq<char>, Seq<char>),
}

/// The answers that rule providers gave, by tag and list.
pub type Answers = Map<(Seq<char>, Seq<char>), bool>;

/// Whether a condition holds of a connection, given the providers'
/// answers. `Any` and `All` look at their conditions in order and stop at
/// the first that decides; a provider question that is not answered yet
/// stops the evaluation.
pub open spec fn eval(c: MatchCondition, conn: ConnView, ans: Answers) -> EvalView
    decreases c,
{
    match c {
        MatchCondition::Any(cs) => eval_seq(cs@, true, conn, ans),
        MatchCondition::All(cs) => eval_seq(cs@, false, conn, ans),
        MatchCondition::DestIp(m) => EvalView::Done(conn.dest.ip matches Some(ip) && m.spec_is_match(ip)),
        MatchCondition::SrcIp(m) => EvalView::Done(m.spec_is_match(conn.src_ip)),
        MatchCondition::DestPort(p) => EvalView::Done(conn.dest.port matches Some(port) && p.spec_is_match(port)),
        MatchCondition::Domain(d) => EvalView::Done(conn.dest.domain matches Some(name) && rule_matches(d.rule(), name)),
        MatchCondition::Transport(t) => EvalView::Done(conn.typ == t),
        MatchCondition::InboundName(n) => EvalView::Done(conn.inbound_tag == n@),
        MatchCondition::Provider(p) => if ans.dom().contains((p.tag@, p.sub@)) {
            EvalView::Done(ans[(p.tag@, p.sub@)])
        } else {
            EvalView::Need(p.tag@, p.sub@)
        },
    }
}

/// `Any` (`any` true) or `All` over the conditions, in order.
pub open spec fn eval_seq(cs: Seq<MatchCondition>, any: bool, conn: ConnView, ans: Answers) -> EvalView
    decreases cs,
{
    if cs.len() == 0 {
        EvalView::Done(!any)
    } else {
        match eval(cs[0], conn, ans) {
            EvalView::Need(t, s) => EvalView::Need(t, s),
            EvalView::Done(b) => if b == any {
                EvalView::Done(any)
            } else {
                eval_seq(cs.drop_first(), any, conn, ans)
            },
        }
    }
}

/// The outcome of evaluating a condition.
#[derive(Debug)]
pub enum Eval {
    Done(bool),
    Need(String, String),
}

impl Eval {
    pub open spec fn view_eval(&self) -> EvalView {
        match self {
            Eval::Done(b) => EvalView::Done(*b),
            Eval::Need(t, s) => EvalView::Need(t@, s@),
        }
    }
}

/// The answers that rule providers gave, in the order they came; a later
/// answer for the same question replaces an earlier one.
#[derive(Debug, Clone)]
pub struct AnswerList {
    pub entries: Vec<(String, String, bool)>,
}

pub open spec fn answers_of(es: Seq<(String, String, bool)>) -> Answers
    decreases es.len(),
{
    if es.len() == 0 {
        Map::empty()
    } else {
        answers_of(es.drop_last()).insert((es.last().0@, es.last().1@), es.last().2)
    }
}

proof fn lemma_answers_tail_free(es: Seq<(String, String, bool)>, i: int, k: (Seq<char>, Seq<char>))
    requires
        0 <= i <= es.len(),
        forall|j: int| i <= j < es.len() ==> ((#[trigger] es[j]).0@, es[j].1@) != k,
    ensures
        answers_of(es).dom().contains(k) == answers_of(es.take(i)).dom().contains(k),
        answers_of(es).dom().contains(k) ==> answers_of(es)[k] == answers_of(es.take(i))[k],
    decreases es.len() - i,
{
    if i < es.len() {
        let q = es.drop_last();
        assert forall|j: int| i <= j < q.len() implies ((#[trigger] q[j]).0@, q[j].1@) != k by {
            assert(q[j] == es[j]);
        }
        lemma_answers_tail_free(q, i, k);
        assert(q.take(i) == es.take(i));
        assert(es[es.len() - 1] == es.last());
    } else {
        assert(es.take(i) == es);
    }
}

impl View for AnswerList {
    type V = Answers;

    open spec fn view(&self) -> Answers {
        answers_of(self.entries@)
    }
}

impl AnswerList {
    pub fn new() -> (r: Self)
        ensures
            r@ == Map::<(Seq<char>, Seq<char>), bool>::empty(),
    {
        AnswerList { entries: Vec::new() }
    }

    /// Records the answer to a question.
    pub fn insert(&mut self, tag: String, sub: String, answer: bool)
        ensures
            final(self)@ == old(self)@.insert((tag@, sub@), answer),
    {
        let ghost k = (tag@, sub@);
        self.entries.push((tag, sub, answer));
        let ghost es = self.entries@;
        assert(es.drop_last() == old(self).entries@);
        assert((es.last().0@, es.last().1@) == k);
    }

    /// The recorded answer to a question, if any.
    pub fn get(&self, tag: &String, sub: &String) -> (r: Option<bool>)
        ensures
            match r {
                Some(b) => self@.dom().contains((tag@, sub@)) && self@[(tag@, sub@)] == b,
                None => !self@.dom().contains((tag@, sub@)),
            },
    {
        let ghost es = self.entries@;
        let ghost k = (tag@, sub@);
        let mut i: usize = self.entries.len();
        while i > 0
            invariant
                i <= es.len(),
                es == self.entries@,
                k == (tag@, sub@),
                forall|j: int| i <= j < es.len() ==> ((#[trigger] es[j]).0@, es[j].1@) != k,
            decreases i,
        {
            let same_tag = self.entries[i - 1].0 == *tag;
            let same_sub = self.entries[i - 1].1 == *sub;
            assert(es[i - 1] == self.entries@[i - 1]);
            assert(same_tag == (es[i - 1].0@ == tag@));
            assert(same_sub == (es[i - 1].1@ == sub@));
            if same_tag && same_sub {
                proof {
                    lemma_answers_tail_free(es, i as int, k);
                    assert(es.take(i as int).last() == es[i - 1]);
                    assert(es.take(i as int).drop_last() == es.take(i - 1));
                    assert((es[i - 1].0@, es[i - 1].1@) == k);
                }
                return Some(self.entries[i - 1].2);
            }
            i = i - 1;
        }
        proof {
            lemma_answers_tail_free(es, 0, k);
            assert(es.take(0) == Seq::<(String, String, bool)>::empty());
        }
        None
    }
}

impl MatchCondition {
    /// Every domain and network condition inside is well-formed.
    pub open spec fn wf(&self) -> bool
        decreases *self,
    {
        match *self {
            MatchCondition::Any(cs) => all_wf(cs@),
            MatchCondition::All(cs) => all_wf(cs@),
            MatchCondition::DestIp(m) => m.wf(),
            MatchCondition::SrcIp(m) => m.wf(),
            MatchCondition::Domain(d) => d.wf(),
            _ => true,
        }
    }

    /// Evaluates the condition on `conn`, with the providers' answers so
    /// far.
    pub fn evaluate(&self, conn: &Connection, ans: &AnswerList) -> (r: Eval)
        requires
            self.wf(),
        ensures
            r.view_eval() == eval(*self, conn@, ans@),
        decreases *self,
    {
        match self {
            MatchCondition::Any(cs) => evaluate_seq(cs, true, conn, ans),
            MatchCondition::All(cs) => evaluate_seq(cs, false, conn, ans),
            MatchCondition::DestIp(m) => match &conn.dest_addr.ip {
                Some(ip) => Eval::Done(m.is_match(ip)),
                None => Eval::Done(false),
            },
            MatchCondition::SrcIp(m) => Eval::Done(m.is_match(&conn.src_ip)),
            MatchCondition::DestPort(p) => match conn.dest_addr.port {
                Some(port) => Eval::Done(p.is_match(port)),
                None => Eval::Done(false),
            },
            MatchCondition::Domain(d) => match &conn.dest_addr.domain {
                Some(name) => Eval::Done(d.is_match(name.as_str())),
                None => Eval::Done(false),
            },
            MatchCondition::Transport(t) => Eval::Done(conn.typ == *t),
            MatchCondition::InboundName(n) => Eval::Done(conn.inbound_tag == *n),
            MatchCondition::Provider(p) => match ans.get(&p.tag, &p.sub) {
                Some(b) => Eval::Done(b),
                None => Eval::Need(p.tag.clone(), p.sub.clone()),
            },
        }
    }
}

/// Every condition in the list is well-formed.
pub open spec fn all_wf(cs: Seq<MatchCondition>) -> bool
    decreases cs,
{
    if cs.len() == 0 {
        true
    } else {
        cs[0].wf() && all_wf(cs.drop_first())
    }
}

/// `Any` or `All` over the conditions, in order.
pub fn evaluate_seq(cs: &Vec<MatchCondition>, any: bool, conn: &Connection, ans: &AnswerList) -> (r: Eval)
    requires
        all_wf(cs@),
    ensures
        r.view_eval() == eval_seq(cs@, any, conn@, ans@),
    decreases cs@,
{
    let mut i: usize = 0;
    assert(cs@.skip(0) == cs@);
    while i < cs.len()
        invariant
            i <= cs@.len(),
            all_wf(cs@.skip(i as int)),
            eval_seq(cs@, any, conn@, ans@) == eval_seq(cs@.skip(i as int), any, conn@, ans@),
        decreases cs.len() - i,
    {
        let ghost rest = cs@.skip(i as int);
        assert(rest[0] == cs@[i as int]);
        assert(rest.drop_first() == cs@.skip(i + 1));
        proof {
            assert(decreases_to!(cs@ => cs@[i as int]));
        }
        match cs[i].evaluate(conn, ans) {
            Eval::Need(t, s) => return Eval::Need(t, s),
            Eval::Done(b) => {
                if b == any {
                    return Eval::Done(any);
                }
            },
        }
        i = i + 1;
    }
    Eval::Done(!any)
}

/// Whether a condition holds of a destination alone, given the providers'
/// answers: conditions on the transport, the inbound, the port or the
/// source never hold.
pub open spec fn eval_dest(c: MatchCondition, dest: DestView, ans: Answers) -> EvalView
    decreases c,
{
    match c {
        MatchCondition::Any(cs) => eval_dest_seq(cs@, true, dest, ans),
        MatchCondition::All(cs) => eval_dest_seq(cs@, false, dest, ans),
        MatchCondition::DestIp(m) => EvalView::Done(dest.ip matches Some(ip) && m.spec_is_match(ip)),
        MatchCondition::Domain(d) => EvalView::Done(dest.domain matches Some(name) && rule_matches(d.rule(), name)),
        MatchCondition::Provider(p) => if ans.dom().contains((p.tag@, p.sub@)) {
            EvalView::Done(ans[(p.tag@, p.sub@)])
        } else {
            EvalView::Need(p.tag@, p.sub@)
        },
        _ => EvalView::Done(false),
    }
}

pub open spec fn eval_dest_seq(cs: Seq<MatchCondition>, any: bool, dest: DestView, ans: Answers) -> EvalView
    decreases cs,
{
    if cs.len() == 0 {
        EvalView::Done(!any)
    } else {
        match eval_dest(cs[0], dest, ans) {
            EvalView::Need(t, s) => EvalView::Need(t, s),
            EvalView::Done(b) => if b == any {
                EvalView::Done(any)
            } else {
                eval_dest_seq(cs.drop_first(), any, dest, ans)
            },
        }
    }
}

impl MatchCondition {
    /// Evaluates the condition on a destination alone.
    pub fn evaluate_dest(&self, dest: &DestAddr, ans: &AnswerList) -> (r: Eval)
        requires
            self.wf(),
        ensures
            r.view_eval() == eval_dest(*self, dest@, ans@),
        decreases *self,
    {
        match self {
            MatchCondition::Any(cs) => evaluate_dest_seq(cs, true, dest, ans),
            MatchCondition::All(cs) => evaluate_dest_seq(cs, false, dest, ans),
            MatchCondition::DestIp(m) => match &dest.ip {
                Some(ip) => Eval::Done(m.is_match(ip)),
                None => Eval::Done(false),
            },
            MatchCondition::Domain(d) => match &dest.domain {
                Some(name) => Eval::Done(d.is_match(name.as_str())),
                None => Eval::Done(false),
            },
            MatchCondition::Provider(p) => match ans.get(&p.tag, &p.sub) {
                Some(b) => Eval::Done(b),
                None => Eval::Need(p.tag.clone(), p.sub.clone()),
            },
            MatchCondition::Transport(_) => Eval::Done(false),
            MatchCondition::InboundName(_) => Eval::Done(false),
            MatchCondition::DestPort(_) => Eval::Done(false),
            MatchCondition::SrcIp(_) => Eval::Done(false),
        }
    }
}

pub fn evaluate_dest_seq(cs: &Vec<MatchCondition>, any: bool, dest: &DestAddr, ans: &AnswerList) -> (r: Eval)
    requires
        all_wf(cs@),
    ensures
        r.view_eval() == eval_dest_seq(cs@, any, dest@, ans@),
    decreases cs@,
{
    let mut i: usize = 0;
    assert(cs@.skip(0) == cs@);
    while i < cs.len()
        invariant
            i <= cs@.len(),
            all_wf(cs@.skip(i as int)),
            eval_dest_seq(cs@, any, dest@, ans@) == eval_dest_seq(cs@.skip(i as int), any, dest@, ans@),
        decreases cs.len() - i,
    {
        let ghost rest = cs@.skip(i as int);
        assert(rest[0] == cs@[i as int]);
        assert(rest.drop_first() == cs@.skip(i + 1));
        proof {
            assert(decreases_to!(cs@ => cs@[i as int]));
        }
        match cs[i].evaluate_dest(dest, ans) {
            Eval::Need(t, s) => return Eval::Need(t, s),
            Eval::Done(b) => {
                if b == any {
                    return Eval::Done(any);
                }
            },
        }
        i = i + 1;
    }
    Eval::Done(!any)
}

/// Once every condition has its answer, `Any` holds exactly when one of
/// its conditions does and `All` exactly when each does; so `Any` of none
/// is false and `All` of none is true.
pub proof fn lemma_any_all(cs: Seq<MatchCondition>, conn: ConnView, ans: Answers)
    requires
        forall|i: int| 0 <= i < cs.len() ==> #[trigger] eval(cs[i], conn, ans) is Done,
    ensures
        eval_seq(cs, true, conn, ans)
            == EvalView::Done(exists|i: int| 0 <= i < cs.len() && #[trigger] eval(cs[i], conn, ans) == EvalView::Done(true)),
        eval_seq(cs, false, conn, ans)
            == EvalView::Done(forall|i: int| 0 <= i < cs.len() ==> #[trigger] eval(cs[i], conn, ans) == EvalView::Done(true)),
    decreases cs.len(),
{
    if cs.len() > 0 {
        let rest = cs.drop_first();
        assert forall|i: int| 0 <= i < rest.len() implies #[trigger] eval(rest[i], conn, ans) is Done by {
            assert(rest[i] == cs[i + 1]);
            assert(eval(cs[i + 1], conn, ans) is Done);
        }
        lemma_any_all(rest, conn, ans);
        assert(eval(cs[0], conn, ans) is Done);
        if eval(cs[0], conn, ans) == EvalView::Done(true) {
            assert(exists|i: int| 0 <= i < cs.len() && #[trigger] eval(cs[i], conn, ans) == EvalView::Done(true));
        } else {
            assert(!(forall|i: int| 0 <= i < cs.len() ==> #[trigger] eval(cs[i], conn, ans) == EvalView::Done(true)));
            assert((exists|i: int| 0 <= i < cs.len() && #[trigger] eval(cs[i], conn, ans) == EvalView::Done(true))
                == (exists|i: int| 0 <= i < rest.len() && #[trigger] eval(rest[i], conn, ans) == EvalView::Done(true))) by {
                if exists|i: int| 0 <= i < cs.len() && #[trigger] eval(cs[i], conn, ans) == EvalView::Done(true) {
                    let i = choose|i: int| 0 <= i < cs.len() && #[trigger] eval(cs[i], conn, ans) == EvalView::Done(true);
                    assert(i > 0);
                    assert(rest[i - 1] == cs[i]);
                }
                if exists|i: int| 0 <= i < rest.len() && #[trigger] eval(rest[i], conn, ans) == EvalView::Done(true) {
                    let i = choose|i: int| 0 <= i < rest.len() && #[trigger] eval(rest[i], conn, ans) == EvalView::Done(true);
                    assert(rest[i] == cs[i + 1]);
                }
            }
        }
        if eval(cs[0], conn, ans) == EvalView::Done(true) {
            assert((forall|i: int| 0 <= i < cs.len() ==> #[trigger] eval(cs[i], conn, ans) == EvalView::Done(true))
                == (forall|i: int| 0 <= i < rest.len() ==> #[trigger] eval(rest[i], conn, ans) == EvalView::Done(true))) by {
                if forall|i: int| 0 <= i < rest.len() ==> #[trigger] eval(rest[i], conn, ans) == EvalView::Done(true) {
                    assert forall|i: int| 0 <= i < cs.len() implies #[trigger] eval(cs[i], conn, ans) == EvalView::Done(true) by {
                        if i > 0 {
                            assert(rest[i - 1] == cs[i]);
                        }
                    }
                }
                if forall|i: int| 0 <= i < cs.len() ==> #[trigger] eval(cs[i], conn, ans) == EvalView::Done(true) {
                    assert forall|i: int| 0 <= i < rest.len() implies #[trigger] eval(rest[i], conn, ans) == EvalView::Done(true) by {
                        assert(rest[i] == cs[i + 1]);
                    }
                }
            }
        }
    }
}

/// The mask of the first `p` of 128 bits (`p` at most 128).
pub open spec fn mask128(p: u8) -> u128 {
    if p == 0 { 0 } else { u128::MAX << ((128 - p) as u128) }
}

/// The mask of the first `p` of 32 bits (`p` at most 32).
pub open spec fn mask32(p: u8) -> u32 {
    (!(0xffff_ffffu64 >> (p as u64))) as u32
}

/// A network holds exactly the addresses that agree with its address under
/// the mask of its prefix, the leading bits: for an IPv6 network
/// `addr/p`, `ip & mask == addr & mask` where the mask has the first `p` of
/// 128 bits set; for an IPv4 network likewise with 32 bits.
pub proof fn lemma_ipnet_contains_by_mask(net: IpNet, ip: IpAddr)
    requires
        net.wf(),
    ensures
        net.spec_contains(ip) == match (net, ip) {
            (IpNet::V4 { addr, prefix }, IpAddr::V4(b)) => (b & mask32(prefix)) == (addr & mask32(prefix)),
            (IpNet::V6 { addr, prefix }, IpAddr::V6(b)) => (b & mask128(prefix)) == (addr & mask128(prefix)),
            _ => false,
        },
{
    match (net, ip) {
        (IpNet::V4 { addr, prefix }, IpAddr::V4(b)) => {
            let p = prefix;
            if p == 0 {
                assert((b & mask32(0)) == (addr & mask32(0))) by (bit_vector)
                    requires mask32(0) == (!(0xffff_ffffu64 >> 0u64)) as u32;
            } else {
                let s = (32 - p) as u32;
                assert(((addr >> s) == (b >> s)) <==> ((b & ((!(0xffff_ffffu64 >> ((32 - s) as u64))) as u32))
                    == (addr & ((!(0xffff_ffffu64 >> ((32 - s) as u64))) as u32)))) by (bit_vector)
                    requires s < 32;
                assert((32 - s) as u64 == p as u64);
            }
        },
        (IpNet::V6 { addr, prefix }, IpAddr::V6(b)) => {
            let p = prefix;
            if p == 0 {
                assert((b & 0u128) == (addr & 0u128)) by (bit_vector);
            } else {
                let s = (128 - p) as u128;
                let m = u128::MAX << s;
                assert(((addr >> s) << s) == (addr & m)) by (bit_vector)
                    requires m == u128::MAX << s, s < 128;
                assert(((b >> s) << s) == (b & m)) by (bit_vector)
                    requires m == u128::MAX << s, s < 128;
                assert((((addr >> s) << s) >> s) == (addr >> s)) by (bit_vector)
                    requires s < 128;
                assert((((b >> s) << s) >> s) == (b >> s)) by (bit_vector)
                    requires s < 128;
            }
        },
        _ => {},
    }
}

} // verus!
