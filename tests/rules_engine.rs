use cowcat::config::{HeaderMatch, RuleConfig, RulesConfig};
use cowcat::rules::{
    clamp_difficulty, effective_difficulty, network_contains, IpAddress, IpNetwork, RequestHeader, RuleAction,
    RuleDecision, RulesEngine, RulesError,
};

fn rule(action: RuleAction) -> RuleConfig {
    RuleConfig {
        name: None,
        action,
        difficulty_delta: None,
        path_prefix: None,
        path_exact: None,
        header: None,
        ip_cidr: None,
    }
}

fn header(name: &str, value: &str) -> RequestHeader {
    RequestHeader { name: name.to_string(), value: Some(value.to_string()) }
}

#[test]
fn disabled_rules_decide_nothing() {
    let cfg = RulesConfig { enabled: false, default_action: RuleAction::Block, rule: vec![rule(RuleAction::Allow)] };
    let e = RulesEngine::from_config(&cfg).unwrap();
    assert_eq!(e.evaluate("/", &[], None), None);
}

#[test]
fn first_match_wins_and_default_applies() {
    let mut admin = rule(RuleAction::Block);
    admin.path_prefix = Some("/admin".to_string());
    let mut any = rule(RuleAction::Challenge);
    any.difficulty_delta = Some(2);
    any.path_exact = Some("/login".to_string());
    let cfg = RulesConfig { enabled: true, default_action: RuleAction::Allow, rule: vec![admin, any] };
    let e = RulesEngine::from_config(&cfg).unwrap();
    assert_eq!(e.evaluate("/admin/x", &[], None), Some(RuleDecision { action: RuleAction::Block, difficulty_delta: 0 }));
    assert_eq!(e.evaluate("/login", &[], None), Some(RuleDecision { action: RuleAction::Challenge, difficulty_delta: 2 }));
    assert_eq!(e.evaluate("/other", &[], None), Some(RuleDecision { action: RuleAction::Allow, difficulty_delta: 0 }));
}

#[test]
fn empty_rule_matches_everything() {
    let cfg = RulesConfig { enabled: true, default_action: RuleAction::Block, rule: vec![rule(RuleAction::Allow)] };
    let e = RulesEngine::from_config(&cfg).unwrap();
    assert_eq!(e.evaluate("/anything", &[], None).unwrap().action, RuleAction::Allow);
}

#[test]
fn header_predicates_ignore_ascii_case() {
    let mut r = rule(RuleAction::Block);
    r.header = Some(HeaderMatch { name: " User-Agent ".to_string(), equals: None, contains: Some("BOT".to_string()) });
    let mut eq = rule(RuleAction::Allow);
    eq.header = Some(HeaderMatch { name: "x-team".to_string(), equals: Some("Ops".to_string()), contains: None });
    let cfg = RulesConfig { enabled: true, default_action: RuleAction::Challenge, rule: vec![r, eq] };
    let e = RulesEngine::from_config(&cfg).unwrap();
    let hs = vec![header("user-agent", "SomeBot/1.0")];
    assert_eq!(e.evaluate("/", &hs, None).unwrap().action, RuleAction::Block);
    let hs = vec![header("user-agent", "Firefox"), header("x-team", "OPS")];
    assert_eq!(e.evaluate("/", &hs, None).unwrap().action, RuleAction::Allow);
    let hs = vec![RequestHeader { name: "x-team".to_string(), value: None }];
    assert_eq!(e.evaluate("/", &hs, None).unwrap().action, RuleAction::Challenge);
}

#[test]
fn ip_rules_need_a_known_address() {
    let mut r = rule(RuleAction::Block);
    r.ip_cidr = Some(vec!["10.0.0.0/8".to_string(), "2001:db8::/32".to_string()]);
    let cfg = RulesConfig { enabled: true, default_action: RuleAction::Allow, rule: vec![r] };
    let e = RulesEngine::from_config(&cfg).unwrap();
    assert_eq!(e.evaluate("/", &[], Some(IpAddress::V4(0x0a01_0203))).unwrap().action, RuleAction::Block);
    assert_eq!(e.evaluate("/", &[], Some(IpAddress::V4(0x0b00_0001))).unwrap().action, RuleAction::Allow);
    assert_eq!(e.evaluate("/", &[], None).unwrap().action, RuleAction::Allow);
    let v6 = 0x2001_0db8_0000_0000_0000_0000_0000_0001u128;
    assert_eq!(e.evaluate("/", &[], Some(IpAddress::V6(v6))).unwrap().action, RuleAction::Block);
}

#[test]
fn network_containment() {
    let all = IpNetwork { v6: false, addr: 0x0102_0304, prefix_len: 0 };
    assert!(network_contains(&all, &IpAddress::V4(0xffff_ffff)));
    assert!(!network_contains(&all, &IpAddress::V6(1)));
    let host = IpNetwork { v6: false, addr: 0xc0a8_0001, prefix_len: 32 };
    assert!(network_contains(&host, &IpAddress::V4(0xc0a8_0001)));
    assert!(!network_contains(&host, &IpAddress::V4(0xc0a8_0002)));
}

#[test]
fn config_errors() {
    let mut bad = rule(RuleAction::Allow);
    bad.ip_cidr = Some(vec!["nope".to_string()]);
    let cfg = RulesConfig { enabled: true, default_action: RuleAction::Allow, rule: vec![bad] };
    assert_eq!(RulesEngine::from_config(&cfg).unwrap_err(), RulesError::InvalidCidr);
    let mut h = rule(RuleAction::Allow);
    h.header = Some(HeaderMatch { name: "  ".to_string(), equals: Some("a".to_string()), contains: None });
    let cfg = RulesConfig { enabled: true, default_action: RuleAction::Allow, rule: vec![h] };
    assert_eq!(RulesEngine::from_config(&cfg).unwrap_err(), RulesError::EmptyHeaderName);
    let mut h = rule(RuleAction::Allow);
    h.header = Some(HeaderMatch { name: "x".to_string(), equals: None, contains: None });
    let cfg = RulesConfig { enabled: true, default_action: RuleAction::Allow, rule: vec![h] };
    assert_eq!(RulesEngine::from_config(&cfg).unwrap_err(), RulesError::HeaderWithoutCondition);
}

#[test]
fn difficulty_clamping() {
    assert_eq!(clamp_difficulty(-3), 0);
    assert_eq!(clamp_difficulty(7), 7);
    assert_eq!(clamp_difficulty(11), 10);
    assert_eq!(effective_difficulty(3, 4), 7);
    assert_eq!(effective_difficulty(3, -5), 0);
    assert_eq!(effective_difficulty(3, i32::MAX), 10);
}
