//! Tests of the dispatcher, the expression bridge, cidr matching and the
//! configuration checks.

use redproxy::addr::TargetAddress;
use redproxy::config::{
    default_bbr, from_config, from_value, listener_from_value, ConnectorEntry, ConnectorKind,
    HttpListener, ListenerEntry, ListenerKind, QuicListener,
};
use redproxy::context::{ContextProps, Feature, IpAddress, SockAddr};
use redproxy::rules::{
    check_feature, cidr_match, create_context, dispatch_pick, pick_rule, resolve_rules,
    ContextAdaptor, Rule, ScriptType, ScriptValue,
};
use redproxy::ProxyError;

#[test]
fn first_matching_rule_wins() {
    assert_eq!(pick_rule(&vec![false, true, true, false]), Some(1));
    assert_eq!(pick_rule(&vec![true, false]), Some(0));
    assert_eq!(pick_rule(&vec![false, false]), None);
    assert_eq!(pick_rule(&vec![]), None);
    assert_eq!(dispatch_pick(&vec![false, true]), Ok(1));
    assert_eq!(dispatch_pick(&vec![false, false]), Err(ProxyError::NoMatchingRule));
}

#[test]
fn dispatcher_checks_features() {
    let features = vec![Feature::TcpForward, Feature::UdpForward];
    assert_eq!(check_feature(&features, Feature::UdpForward), Ok(()));
    assert_eq!(
        check_feature(&features, Feature::TcpBind),
        Err(ProxyError::FeatureUnsupported)
    );
    assert_eq!(
        check_feature(&vec![], Feature::TcpForward),
        Err(ProxyError::FeatureUnsupported)
    );
}

#[test]
fn rules_resolve_to_connectors_in_order() {
    let rules = vec![
        Rule { filter: b"true".to_vec(), target_name: b"upstream".to_vec() },
        Rule { filter: b"request.target.port == 53".to_vec(), target_name: b"relay".to_vec() },
    ];
    let names = vec![b"relay".to_vec(), b"upstream".to_vec()];
    assert_eq!(resolve_rules(&rules, &names), Ok(vec![1, 0]));
    let missing = vec![b"relay".to_vec()];
    assert_eq!(resolve_rules(&rules, &missing), Err(ProxyError::ConfigError));
}

fn props() -> ContextProps {
    ContextProps {
        id: 3,
        listener: b"main".to_vec(),
        source: SockAddr { ip: IpAddress::V4 { a: 192, b: 0, c: 2, d: 7 }, port: 55555 },
        target: Some(TargetAddress::Domain { host: b"example.com".to_vec(), port: 443 }),
    }
}

#[test]
fn bridge_exposes_request_properties() {
    let ctx = create_context(props());
    let adaptor = &ctx.request;
    let names = adaptor.names();
    assert_eq!(names.len(), 3);
    assert_eq!(names[0].as_slice(), b"listener");
    match adaptor.get(b"listener") {
        Ok(ScriptValue::Text(v)) => assert_eq!(v.as_slice(), b"main"),
        _ => panic!("expected text"),
    }
    match adaptor.get(b"source") {
        Ok(ScriptValue::Text(v)) => assert_eq!(v.as_slice(), b"192.0.2.7:55555"),
        _ => panic!("expected text"),
    }
    match adaptor.get(b"target") {
        Ok(ScriptValue::Target(t)) => assert_eq!(t.display().as_slice(), b"example.com:443"),
        _ => panic!("expected a target"),
    }
    assert_eq!(adaptor.get(b"nonsense"), Err(ProxyError::EvalError));
    assert_eq!(adaptor.type_of(b"listener"), Ok(ScriptType::Text));
    assert_eq!(adaptor.type_of(b"nonsense"), Err(ProxyError::EvalError));
}

#[test]
fn bridge_target_without_handshake_is_an_error() {
    let mut p = props();
    p.target = None;
    let adaptor = ContextAdaptor::new(p);
    assert_eq!(adaptor.get(b"target"), Err(ProxyError::EvalError));
}

#[test]
fn target_properties_for_rules() {
    let t = TargetAddress::V4 { a: 10, b: 1, c: 2, d: 3, port: 8080 };
    let names = t.names();
    assert_eq!(names[2].as_slice(), b"type");
    match t.get(b"host") {
        Ok(ScriptValue::Text(v)) => assert_eq!(v.as_slice(), b"10.1.2.3"),
        _ => panic!("expected text"),
    }
    assert_eq!(t.get(b"port"), Ok(ScriptValue::Int(8080)));
    match t.get(b"type") {
        Ok(ScriptValue::Text(v)) => assert_eq!(v.as_slice(), b"ipv4"),
        _ => panic!("expected text"),
    }
    assert_eq!(t.type_of(b"port"), Ok(ScriptType::Integer));
    assert_eq!(t.type_of(b"host"), Ok(ScriptType::Text));
    assert_eq!(t.get(b"other"), Err(ProxyError::EvalError));
    let d = TargetAddress::Domain { host: b"example.com".to_vec(), port: 1 };
    match d.get(b"type") {
        Ok(ScriptValue::Text(v)) => assert_eq!(v.as_slice(), b"domain"),
        _ => panic!("expected text"),
    }
}

#[test]
fn cidr_match_v4() {
    assert!(cidr_match(b"10.1.2.3", b"10.0.0.0/8"));
    assert!(!cidr_match(b"11.1.2.3", b"10.0.0.0/8"));
    assert!(cidr_match(b"192.0.2.1", b"192.0.2.1"));
    assert!(!cidr_match(b"192.0.2.1", b"192.0.2.2"));
    assert!(cidr_match(b"255.255.255.255", b"0.0.0.0/0"));
    assert!(cidr_match(b"192.0.2.129", b"192.0.2.128/25"));
    assert!(!cidr_match(b"192.0.2.127", b"192.0.2.128/25"));
}

#[test]
fn cidr_match_v6() {
    assert!(cidr_match(
        b"2001:db8:0:0:0:0:0:1",
        b"2001:db8:0:0:0:0:0:0/32"
    ));
    assert!(!cidr_match(
        b"2001:db9:0:0:0:0:0:1",
        b"2001:db8:0:0:0:0:0:0/32"
    ));
    assert!(cidr_match(
        b"2001:db8:0:0:0:0:0:1",
        b"2001:db8:0:0:0:0:0:1"
    ));
    // 2001:0db8:8000.. lies in /33 of 2001:0db8:8000::, 2001:0db8:7fff.. does not.
    assert!(cidr_match(
        b"2001:db8:8001:0:0:0:0:0",
        b"2001:db8:8000:0:0:0:0:0/33"
    ));
    assert!(!cidr_match(
        b"2001:db8:7fff:0:0:0:0:0",
        b"2001:db8:8000:0:0:0:0:0/33"
    ));
}

#[test]
fn cidr_match_never_raises() {
    assert!(!cidr_match(b"not an ip", b"10.0.0.0/8"));
    assert!(!cidr_match(b"10.1.2.3", b"not a cidr"));
    assert!(!cidr_match(b"10.1.2.3", b"10.0.0.0/40"));
    assert!(!cidr_match(b"10.1.2.3", b"10.0.0.0/x"));
    assert!(!cidr_match(b"10.1.2.3", b"2001:db8:0:0:0:0:0:0/32"));
    assert!(!cidr_match(b"", b""));
}

#[test]
fn cidr_match_accepts_compressed_v6() {
    assert!(cidr_match(b"::1", b"::1"));
    assert!(cidr_match(b"2001:db8::1", b"2001:db8::/32"));
    assert!(!cidr_match(b"2001:db9::1", b"2001:db8::/32"));
}

#[test]
fn duplicate_connector_names_are_rejected() {
    let entries = vec![
        ConnectorEntry { name: b"direct".to_vec(), kind: None },
        ConnectorEntry { name: b"upstream".to_vec(), kind: Some(b"http".to_vec()) },
        ConnectorEntry { name: b"direct".to_vec(), kind: Some(b"socks".to_vec()) },
    ];
    assert_eq!(from_config(&entries), Err(ProxyError::ConfigError));
}

#[test]
fn good_connector_config_loads() {
    let entries = vec![
        ConnectorEntry { name: b"direct".to_vec(), kind: None },
        ConnectorEntry { name: b"upstream".to_vec(), kind: Some(b"http".to_vec()) },
        ConnectorEntry { name: b"spread".to_vec(), kind: Some(b"loadbalance".to_vec()) },
    ];
    let cs = from_config(&entries).expect("loads");
    assert_eq!(cs.len(), 3);
    assert_eq!(cs[0].name.as_slice(), b"direct");
    assert_eq!(cs[0].kind, ConnectorKind::Direct);
    assert_eq!(cs[1].kind, ConnectorKind::Http);
    assert_eq!(cs[2].kind, ConnectorKind::LoadBalance);
}

#[test]
fn reserved_and_unknown_connectors_are_rejected() {
    assert_eq!(
        from_value(&ConnectorEntry { name: b"deny".to_vec(), kind: Some(b"direct".to_vec()) }),
        Err(ProxyError::ConfigError)
    );
    assert_eq!(
        from_value(&ConnectorEntry { name: b"x".to_vec(), kind: Some(b"warp-drive".to_vec()) }),
        Err(ProxyError::ConfigError)
    );
    let ok = from_value(&ConnectorEntry { name: b"quic".to_vec(), kind: None }).expect("loads");
    assert_eq!(ok.kind, ConnectorKind::Quic);
}

#[test]
fn listener_entries_resolve_their_kind() {
    assert_eq!(
        listener_from_value(&ListenerEntry { name: b"main".to_vec(), kind: Some(b"http".to_vec()) }),
        Ok(ListenerKind::Http)
    );
    assert_eq!(
        listener_from_value(&ListenerEntry { name: b"quic".to_vec(), kind: None }),
        Ok(ListenerKind::Quic)
    );
    assert_eq!(
        listener_from_value(&ListenerEntry { name: b"main".to_vec(), kind: None }),
        Err(ProxyError::ConfigError)
    );
}

#[test]
fn listeners_carry_their_names() {
    let h = HttpListener { name: b"main".to_vec(), bind: b"0.0.0.0:8080".to_vec(), tls: false };
    assert_eq!(h.name().as_slice(), b"main");
    let q = QuicListener { name: b"q".to_vec(), bind: b"0.0.0.0:8443".to_vec(), bbr: default_bbr() };
    assert_eq!(q.name().as_slice(), b"q");
    assert!(q.bbr);
}
