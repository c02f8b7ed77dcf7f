use comet::net::{DestAddr, IpAddr};
use comet::plumber::{Plumber, ProcessorKind};
use comet::processor::{do_register, Platform};
use comet::router::matching::domain::{DomainCondition, DomainRuleError};
use comet::router::matching::{
    AnswerList, Connection, Eval, IpMatchCondition, IpNet, MatchCondition, MatchMode, PortCondition,
    ProviderCondition, TransportType,
};
use comet::router::{DefaultOut, MatchNext, Resolve, Route, Router, RouterConfig, RouterRule};
use comet::rule_provider::rule_set::{DomainEntry, DomainType, GeoIP, GeoSite, Ipv4List, RuleSet, RuleSetError};
use comet::rule_provider::{default_interval, ManagerMessage, RuleProviderServer, ServerAction};
use comet::server_provider::list_file_name;

fn conn_to(domain: Option<&str>, ip: Option<IpAddr>, port: Option<u16>) -> Connection {
    let mut d = DestAddr::new();
    if let Some(x) = domain {
        d.set_domain(x);
    }
    d.ip = ip;
    d.port = port;
    Connection { src_ip: IpAddr::V4(0xc0a80001), dest_addr: d, typ: TransportType::Tcp, inbound_tag: String::from("socks") }
}

#[test]
fn match_mode_flags() {
    assert!(MatchMode::Any.ip() && MatchMode::Any.domain());
    assert!(MatchMode::IpOnly.ip() && !MatchMode::IpOnly.domain());
    assert!(!MatchMode::DomainOnly.ip() && MatchMode::DomainOnly.domain());
}

#[test]
fn port_conditions() {
    assert!(PortCondition::Port(80).is_match(80));
    assert!(!PortCondition::Port(80).is_match(81));
    assert!(PortCondition::Range(1000, 2000).is_match(1000));
    assert!(PortCondition::Range(1000, 2000).is_match(2000));
    assert!(!PortCondition::Range(1000, 2000).is_match(2001));
}

#[test]
fn ip_conditions() {
    let net = IpMatchCondition::Cidr(IpNet::V4 { addr: 0x0a000000, prefix: 8 });
    assert!(net.is_match(&IpAddr::V4(0x0a123456)));
    assert!(!net.is_match(&IpAddr::V4(0x0b000000)));
    assert!(!net.is_match(&IpAddr::V6(0x0a000000)));
    assert!(IpMatchCondition::Addr(IpAddr::V4(1)).is_match(&IpAddr::V4(1)));
}

#[test]
fn provider_condition_text() {
    let p = ProviderCondition::from_str("geosite:cn").unwrap();
    assert_eq!(p.tag, "geosite");
    assert_eq!(p.sub, "cn");
    let q = ProviderCondition::from_str("a:b:c").unwrap();
    assert_eq!(q.sub, "b:c");
    assert!(ProviderCondition::from_str("geosite").is_none());
}

#[test]
fn domain_conditions() {
    let d = DomainCondition::from_str("domain:google.com").unwrap();
    assert!(d.is_match("google.com"));
    assert!(d.is_match("www.google.com"));
    assert!(!d.is_match("notgoogle.com"));
    let f = DomainCondition::from_str("full:a.com").unwrap();
    assert!(f.is_match("a.com"));
    assert!(!f.is_match("b.a.com"));
    let k = DomainCondition::from_str("goo").unwrap();
    assert!(k.is_match("www.google.com"));
    let r = DomainCondition::from_str("regex:^ab+c$").unwrap();
    assert!(r.is_match("abbbc"));
    assert!(!r.is_match("ac"));
    assert!(matches!(DomainCondition::from_str("regex:("), Err(DomainRuleError::InvalidRegex)));
}

#[test]
fn router_first_matching_rule() {
    let rules = vec![
        RouterRule { to: String::from("direct"), rule: MatchCondition::DestPort(PortCondition::Port(22)) },
        RouterRule {
            to: String::from("proxy"),
            rule: MatchCondition::All(vec![
                MatchCondition::Transport(TransportType::Tcp),
                MatchCondition::Provider(ProviderCondition { tag: String::from("geosite"), sub: String::from("cn") }),
            ]),
        },
    ];
    let router = Router::new(RouterConfig {
        rules,
        default: DefaultOut::ByTransport { tcp: String::from("t"), udp: String::from("u") },
        resolve: Resolve::IfNonMatch,
    });
    let c = conn_to(Some("example.cn"), None, Some(22));
    assert!(matches!(router.try_match_conn(&c, &AnswerList::new()), Route::Matched(t) if t == "direct"));
    let c2 = conn_to(Some("example.cn"), None, Some(443));
    let mut ans = AnswerList::new();
    assert!(matches!(router.try_match_conn(&c2, &ans), Route::Need(t, s) if t == "geosite" && s == "cn"));
    ans.insert(String::from("geosite"), String::from("cn"), true);
    assert!(matches!(router.try_match_conn(&c2, &ans), Route::Matched(t) if t == "proxy"));
    ans.insert(String::from("geosite"), String::from("cn"), false);
    assert!(matches!(router.try_match_conn(&c2, &ans), Route::NoMatch));
    assert!(router.should_resolve(&c2));
    assert_eq!(router.default_out(TransportType::Udp), "u");
    assert_eq!(Resolve::default(), Resolve::Never);
}

#[test]
fn any_and_all_conditions() {
    let c = conn_to(None, Some(IpAddr::V4(0x08080808)), Some(53));
    let ans = AnswerList::new();
    let any = MatchCondition::Any(vec![
        MatchCondition::DestPort(PortCondition::Port(80)),
        MatchCondition::DestIp(IpMatchCondition::Addr(IpAddr::V4(0x08080808))),
    ]);
    assert!(matches!(any.evaluate(&c, &ans), Eval::Done(true)));
    let all = MatchCondition::All(vec![]);
    assert!(matches!(all.evaluate(&c, &ans), Eval::Done(true)));
    let none = MatchCondition::Any(vec![]);
    assert!(matches!(none.evaluate(&c, &ans), Eval::Done(false)));
    let name = MatchCondition::InboundName(String::from("socks"));
    assert!(matches!(name.evaluate(&c, &ans), Eval::Done(true)));
}

#[test]
fn ipv4_list_matches_networks() {
    let mut l = Ipv4List::new();
    l.insert(0x0a000000, 8);
    l.insert(0xc0a80100, 24);
    assert!(l.is_match(0x0a010203));
    assert!(l.is_match(0xc0a801ff));
    assert!(!l.is_match(0xc0a80200));
    assert!(!l.is_match(0x0b000000));
}

#[test]
fn rule_sets_from_lists() {
    let site = GeoSite {
        country_code: String::from("CN"),
        domain: vec![
            DomainEntry { type_pb: DomainType::Domain, value: String::from("baidu.com") },
            DomainEntry { type_pb: DomainType::Full, value: String::from("exact.cn") },
            DomainEntry { type_pb: DomainType::Plain, value: String::from("qq") },
            DomainEntry { type_pb: DomainType::Pattern, value: String::from("^a+\\.org$") },
        ],
    };
    let rs = RuleSet::from_geosite(&site).unwrap();
    let mut d = DestAddr::new();
    d.set_domain("www.baidu.com");
    assert!(rs.is_match(&d, MatchMode::Any));
    assert!(!rs.is_match(&d, MatchMode::IpOnly));
    d.set_domain("exact.cn");
    assert!(rs.is_match(&d, MatchMode::DomainOnly));
    d.set_domain("im.qq.example");
    assert!(rs.is_match(&d, MatchMode::Any));
    d.set_domain("aaa.org");
    assert!(rs.is_match(&d, MatchMode::Any));
    d.set_domain("other.net");
    assert!(!rs.is_match(&d, MatchMode::Any));

    let bad = GeoSite {
        country_code: String::from("X"),
        domain: vec![DomainEntry { type_pb: DomainType::Pattern, value: String::from("(") }],
    };
    assert!(matches!(RuleSet::from_geosite(&bad), Err(RuleSetError::InvalidRegex)));

    let geo = GeoIP { country_code: String::from("CN"), cidr: vec![(vec![1, 2, 0, 0], 16), (vec![0; 16], 8)] };
    let ip = RuleSet::from_geoip(&geo).unwrap();
    let mut e = DestAddr::new();
    e.set_ip(IpAddr::V4(0x01020304));
    assert!(ip.is_match(&e, MatchMode::IpOnly));
    assert!(!ip.is_match(&e, MatchMode::DomainOnly));
    e.set_ip(IpAddr::V4(0x01030304));
    assert!(!ip.is_match(&e, MatchMode::Any));
    let long = GeoIP { country_code: String::from("X"), cidr: vec![(vec![1, 2, 3, 4], 64)] };
    assert!(matches!(RuleSet::from_geoip(&long), Err(RuleSetError::PrefixTooLong)));
}

#[test]
fn rule_provider_server_messages() {
    let mut server = RuleProviderServer::new(&vec![String::from("geoip")]);
    assert!(server.has_tag(&String::from("geoip")));
    assert!(!server.has_tag(&String::from("geosite")));
    let mut dest = DestAddr::new();
    dest.set_ip(IpAddr::V4(0x01020304));
    let query = |dest: &DestAddr| ManagerMessage::Match {
        tag: String::from("geoip"),
        sub: String::from("cn"),
        dest: dest.copy(),
        mode: MatchMode::Any,
    };
    match server.handle_message(query(&dest)) {
        ServerAction::Reply { result, load } => {
            assert!(!result);
            assert_eq!(load, Some((String::from("geoip"), String::from("cn"))));
        },
        _ => panic!("expected a reply"),
    }
    match server.handle_message(ManagerMessage::Load { tag: String::from("geoip"), sub: String::from("cn") }) {
        ServerAction::StartLoad { tag, sub } => assert_eq!((tag.as_str(), sub.as_str()), ("geoip", "cn")),
        _ => panic!("expected a load"),
    }
    assert!(matches!(server.handle_message(query(&dest)), ServerAction::Reply { result: false, load: None }));
    let geo = GeoIP { country_code: String::from("CN"), cidr: vec![(vec![1, 2, 0, 0], 16)] };
    let rs = RuleSet::from_geoip(&geo).unwrap();
    assert!(matches!(
        server.handle_message(ManagerMessage::Insert { tag: String::from("geoip"), sub: String::from("cn"), rule_set: Some(rs) }),
        ServerAction::Nothing
    ));
    assert!(matches!(server.handle_message(query(&dest)), ServerAction::Reply { result: true, load: None }));
    let unknown = ManagerMessage::Match { tag: String::from("nope"), sub: String::from("cn"), dest: dest.copy(), mode: MatchMode::Any };
    assert!(matches!(server.handle_message(unknown), ServerAction::Reply { result: false, load: None }));
    assert_eq!(default_interval(), 86400);
}

#[test]
fn registry_after_do_register() {
    let mut p = Plumber::new();
    do_register(&mut p, Platform { android: false, linux: true, tls_mitm: false });
    assert_eq!(p.lookup("socks5_server"), Some(ProcessorKind::Socks5Server));
    assert_eq!(p.lookup("ssr_client"), Some(ProcessorKind::SsrClient));
    assert_eq!(p.lookup("associate_uid"), Some(ProcessorKind::AssociateUid));
    assert_eq!(p.lookup("android_nat"), None);
    assert_eq!(p.lookup("tls_mitm"), None);
    p.register("socks5_server", ProcessorKind::Timeout);
    assert_eq!(p.lookup("socks5_server"), Some(ProcessorKind::Timeout));
    assert_eq!(list_file_name("sub"), "sub.lst");
}

#[test]
fn match_next_resolves_and_retries() {
    let router = Router::new(RouterConfig {
        rules: vec![],
        default: DefaultOut::Both(String::from("direct")),
        resolve: Resolve::IfNonMatch,
    });
    let c = conn_to(Some("example.cn"), None, Some(443));
    assert!(matches!(router.match_next(&c, &Some(String::from("proxy")), &None, &vec![]), MatchNext::Done(t) if t == "proxy"));
    assert!(matches!(router.match_next(&c, &None, &None, &vec![]), MatchNext::Resolve));
    let ips = Some(vec![IpAddr::V4(1), IpAddr::V4(2)]);
    assert!(matches!(router.match_next(&c, &None, &ips, &vec![]), MatchNext::TryAddress(0)));
    assert!(matches!(router.match_next(&c, &None, &ips, &vec![None]), MatchNext::TryAddress(1)));
    assert!(matches!(router.match_next(&c, &None, &ips, &vec![None, Some(String::from("cn"))]), MatchNext::Done(t) if t == "cn"));
    assert!(matches!(router.match_next(&c, &None, &ips, &vec![None, None]), MatchNext::Done(t) if t == "direct"));
    assert!(matches!(router.match_next(&c, &None, &Some(vec![]), &vec![]), MatchNext::Done(t) if t == "direct"));
    let with_ip = conn_to(None, Some(IpAddr::V4(3)), Some(80));
    assert!(matches!(router.match_next(&with_ip, &None, &None, &vec![]), MatchNext::Done(t) if t == "direct"));
}
