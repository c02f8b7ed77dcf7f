//! Routing: picking the outbound of a connection by the first rule whose
//! condition holds.
pub mod matching;

use vstd::prelude::*;
use matching::{AnswerList, Connection, ConnView, Eval, EvalView, MatchCondition, TransportType, eval};
use crate::net::IpAddr;

verus! {

/// The outbound used where no rule matches: one for all, or one per
/// transport.
#[derive(Debug, Clone)]
pub enum DefaultOut {
    Both(String),
    ByTransport { tcp: String, udp: String },
}

/// Whether to resolve a destination's name and try the rules again with
/// its addresses when no rule matches.
#[derive(Debug, Clone, Copy, PartialEq, Eq, Structural)]
pub enum Resolve {
    Never,
    IfNonMatch,
}

impl Resolve {
    pub fn default() -> (r: Self)
        ensures
            r == Resolve::Never,
    {
        Resolve::Never
    }
}

/// A routing rule: the outbound to use where the condition holds.
#[derive(Debug)]
pub struct RouterRule {
    pub to: String,
    pub rule: MatchCondition,
}

/// The routing configuration.
#[derive(Debug)]
pub struct RouterConfig {
    pub rules: Vec<RouterRule>,
    pub default: DefaultOut,
    pub resolve: Resolve,
}

/// The router.
#[derive(Debug)]
pub struct Router {
    pub config: RouterConfig,
}

/// The outcome of trying the rules: the outbound of the first rule that
/// holds, none, or a provider question to answer first.
pub enum RouteView {
    Matched(Seq<char>),
    NoMatch,
    Need(Seq<char>, Seq<char>),
}

#[derive(Debug)]
pub enum Route {
    Matched(String),
    NoMatch,
    Need(String, String),
}

impl Route {
    pub open spec fn view_route(&self) -> RouteView {
        match self {
            Route::Matched(t) => RouteView::Matched(t@),
            Route::NoMatch => RouteView::NoMatch,
            Route::Need(t, s) => RouteView::Need(t@, s@),
        }
    }
}

/// The first rule (from `i` on) whose condition holds of `conn`.
pub open spec fn first_match(rules: Seq<RouterRule>, i: int, conn: ConnView, ans: matching::Answers) -> RouteView
    decreases rules.len() - i,
{
    if i < 0 || i >= rules.len() {
        RouteView::NoMatch
    } else {
        match eval(rules[i].rule, conn, ans) {
            EvalView::Need(t, s) => RouteView::Need(t, s),
            EvalView::Done(true) => RouteView::Matched(rules[i].to@),
            EvalView::Done(false) => first_match(rules, i + 1, conn, ans),
        }
    }
}

/// Every rule's condition is well-formed.
pub open spec fn rules_wf(rules: Seq<RouterRule>) -> bool {
    forall|i: int| 0 <= i < rules.len() ==> (#[trigger] rules[i]).rule.wf()
}

/// The default outbound for a transport.
pub open spec fn spec_default_out(d: DefaultOut, typ: TransportType) -> Seq<char> {
    match d {
        DefaultOut::Both(o) => o@,
        DefaultOut::ByTransport { tcp, udp } => match typ {
            TransportType::Tcp => tcp@,
            TransportType::Udp => udp@,
        },
    }
}

impl Router {
    pub fn new(config: RouterConfig) -> (r: Router)
        ensures
            r.config == config,
    {
        Router { config }
    }

    pub open spec fn wf(&self) -> bool {
        rules_wf(self.config.rules@)
    }

    /// Tries the rules in order on `conn`, with the providers' answers so far.
    pub fn try_match_conn(&self, conn: &Connection, ans: &AnswerList) -> (r: Route)
        requires
            self.wf(),
        ensures
            r.view_route() == first_match(self.config.rules@, 0, conn@, ans@),
    {
        let rules = &self.config.rules;
        let mut i: usize = 0;
        while i < rules.len()
            invariant
                i <= rules@.len(),
                rules@ == self.config.rules@,
                rules_wf(rules@),
                first_match(rules@, 0, conn@, ans@) == first_match(rules@, i as int, conn@, ans@),
            decreases rules.len() - i,
        {
            let rule = &rules[i];
            assert(*rule == rules@[i as int]);
            assert(rule.rule.wf());
            match rule.rule.evaluate(conn, ans) {
                Eval::Need(t, s) => return Route::Need(t, s),
                Eval::Done(true) => return Route::Matched(rule.to.clone()),
                Eval::Done(false) => {},
            }
            i = i + 1;
        }
        Route::NoMatch
    }

    /// Whether, after no rule matched, the destination's name is to be
    /// resolved and the rules tried again with each of its addresses.
    pub fn should_resolve(&self, conn: &Connection) -> (r: bool)
        ensures
            r == (self.config.resolve == Resolve::IfNonMatch && conn@.dest.ip is None),
    {
        self.config.resolve == Resolve::IfNonMatch && conn.dest_addr.ip.is_none()
    }

    /// The outbound used where no rule matches.
    pub fn default_out(&self, typ: TransportType) -> (r: String)
        ensures
            r@ == spec_default_out(self.config.default, typ),
    {
        match &self.config.default {
            DefaultOut::Both(o) => o.clone(),
            DefaultOut::ByTransport { tcp, udp } => match typ {
                TransportType::Tcp => tcp.clone(),
                TransportType::Udp => udp.clone(),
            },
        }
    }
}

/// `conn` with its destination address set to `ip`, for a second attempt.
pub fn with_dest_ip(conn: &Connection, ip: IpAddr) -> (r: Connection)
    ensures
        r@ == (ConnView { dest: crate::net::DestView { ip: Some(ip), ..conn@.dest }, ..conn@ }),
{
    let mut dest = conn.dest_addr.copy();
    dest.ip = Some(ip);
    Connection { src_ip: conn.src_ip, dest_addr: dest, typ: conn.typ, inbound_tag: conn.inbound_tag.clone() }
}

/// The next move while routing a connection.
#[derive(Debug)]
pub enum MatchNext {
    /// Use this outbound.
    Done(String),
    /// Resolve the destination's name to its addresses.
    Resolve,
    /// Try the rules again with address `i` of the resolved ones set as the
    /// destination's, looking at addresses only.
    TryAddress(usize),
}

/// The first outbound that a retry found.
pub open spec fn first_found(tried: Seq<Option<String>>) -> Option<Seq<char>>
    decreases tried.len(),
{
    if tried.len() == 0 {
        None
    } else {
        match tried[0] {
            Some(t) => Some(t@),
            None => first_found(tried.drop_first()),
        }
    }
}

impl Router {
    /// Routes a connection step by step: the outbound of the first attempt
    /// (all properties looked at) where it found one; otherwise, where the
    /// configuration says to resolve and the destination has no address,
    /// the name is resolved (`ips`, empty where resolving failed) and the
    /// rules are tried with each address in turn, the first outbound found
    /// winning (`tried`, in the addresses' order); else the default outbound.
    pub fn match_next(&self, conn: &Connection, first: &Option<String>, ips: &Option<Vec<IpAddr>>, tried: &Vec<Option<String>>) -> (r: MatchNext)
        requires
            ips matches Some(v) ==> tried@.len() <= v@.len(),
        ensures
            first matches Some(t) ==> r matches MatchNext::Done(o) && o@ == t@,
            (first is None && !(self.config.resolve == Resolve::IfNonMatch && (conn@.dest.ip is None)))
                ==> (r matches MatchNext::Done(o) && o@ == spec_default_out(self.config.default, conn.typ)),
            (first is None && self.config.resolve == Resolve::IfNonMatch && (conn@.dest.ip is None)) ==> match ips {
                None => r is Resolve,
                Some(v) => match first_found(tried@) {
                    Some(t) => r matches MatchNext::Done(o) && o@ == t,
                    None => if tried@.len() < v@.len() {
                        r == MatchNext::TryAddress(tried@.len() as usize)
                    } else {
                        r matches MatchNext::Done(o) && o@ == spec_default_out(self.config.default, conn.typ)
                    },
                },
            },
    {
        if let Some(t) = first {
            return MatchNext::Done(t.clone());
        }
        if !self.should_resolve(conn) {
            return MatchNext::Done(self.default_out(conn.typ));
        }
        let v = match ips {
            None => return MatchNext::Resolve,
            Some(v) => v,
        };
        let mut i: usize = 0;
        assert(tried@.skip(0) == tried@);
        while i < tried.len()
            invariant
                i <= tried@.len(),
                first is None,
                self.config.resolve == Resolve::IfNonMatch,
                conn@.dest.ip is None,
                ips is Some,
                first_found(tried@) == first_found(tried@.skip(i as int)),
            decreases tried.len() - i,
        {
            assert(tried@.skip(i as int)[0] == tried@[i as int]);
            assert(tried@.skip(i as int).drop_first() == tried@.skip(i + 1));
            if let Some(t) = &tried[i] {
                return MatchNext::Done(t.clone());
            }
            i = i + 1;
        }
        assert(tried@.skip(i as int).len() == 0);
        if tried.len() < v.len() {
            MatchNext::TryAddress(tried.len())
        } else {
            MatchNext::Done(self.default_out(conn.typ))
        }
    }
}

} // verus!
