use cowcat::client_ip::{extract_client_ip, header_ip, resolve_request_ip, IpSource};
use cowcat::config::{Config, ConfigError, IpPolicy, PowConfig};
use cowcat::gate::{cookie_admits, extract_cookie, is_pow_path, is_service_worker_request, pow_gate, GateAction, GateRequest};
use cowcat::config::RuleConfig;
use cowcat::rules::{RuleAction, RulesEngine};
use cowcat::config::RulesConfig;
use cowcat::token::{new_token_payload, open_token, payload_is_current, seal_token, sign, split_token};

fn request(path: &str) -> GateRequest {
    GateRequest {
        method: "GET".to_string(),
        path: path.to_string(),
        sec_fetch_dest: None,
        service_worker: None,
        headers: Vec::new(),
        rule_ip: None,
    }
}

fn pow_config(difficulty: i32) -> PowConfig {
    let mut c = PowConfig::default();
    c.difficulty = difficulty;
    c
}

fn no_rules() -> RulesEngine {
    RulesEngine::from_config(&RulesConfig::default()).unwrap()
}

#[test]
fn sign_matches_hmac_sha256() {
    assert_eq!(sign("secret", b"eyJ2IjoidjEifQ"), "V08xcfdD4x8ojRPy0wb_HDM-MryPZ-NgS5k5ixU_jv0");
}

#[test]
fn token_seal_and_open() {
    let json = br#"{"v":"v1"}"#;
    let token = seal_token("secret", json);
    assert_eq!(token, "eyJ2IjoidjEifQ.V08xcfdD4x8ojRPy0wb_HDM-MryPZ-NgS5k5ixU_jv0");
    assert_eq!(open_token("secret", &token), Some(json.to_vec()));
    assert_eq!(open_token("secret", &format!("  \"{}\" ", token)), Some(json.to_vec()));
    assert_eq!(open_token("other", &token), None);
}

#[test]
fn token_rejects_any_flipped_byte() {
    let token = seal_token("secret", br#"{"v":"v1","exp":1}"#);
    let bytes = token.as_bytes().to_vec();
    for i in 0..bytes.len() {
        let mut b = bytes.clone();
        b[i] ^= 0x01;
        if let Ok(t) = String::from_utf8(b) {
            assert_eq!(open_token("secret", &t), None, "flip at {}", i);
        }
    }
}

#[test]
fn token_split_rules() {
    assert_eq!(split_token("a.b.c"), Some(("a", "b.c")));
    assert_eq!(split_token(".b"), None);
    assert_eq!(split_token("a."), None);
    assert_eq!(split_token("ab"), None);
    assert_eq!(open_token("s", "abc"), None);
}

#[test]
fn payload_checks() {
    let p = new_token_payload(4, "host", "ua", "", "7", 1000, 3600);
    assert_eq!(p.exp, 4600);
    assert_eq!(p.ip, None);
    assert!(payload_is_current(&p, 4600));
    assert!(!payload_is_current(&p, 4601));
    let q = new_token_payload(4, "host", "ua", "ip", "", 1000, 3600);
    assert_eq!(q.ip.as_deref(), Some("ip"));
    assert!(!payload_is_current(&q, 0));
}

#[test]
fn cookie_binding() {
    let p = new_token_payload(4, "h", "ua1", "ip1", "n", 0, 10);
    assert!(cookie_admits(&p, "ua1", IpPolicy::Disabled, "other"));
    assert!(!cookie_admits(&p, "ua2", IpPolicy::Disabled, ""));
    assert!(cookie_admits(&p, "ua1", IpPolicy::Enable, "ip1"));
    assert!(!cookie_admits(&p, "ua1", IpPolicy::Strict, "ip2"));
    let none = new_token_payload(4, "h", "ua1", "", "n", 0, 10);
    assert!(cookie_admits(&none, "ua1", IpPolicy::Enable, ""));
}

#[test]
fn cookie_header_extraction() {
    assert_eq!(extract_cookie("a=1; cowcat.waf.token=abc.def; b=2"), Some("abc.def".to_string()));
    assert_eq!(extract_cookie("a=1"), None);
}

#[test]
fn bypass_rules() {
    let cfg = pow_config(3);
    let e = no_rules();
    assert_eq!(pow_gate(&cfg, &e, &request("/__cowcatwaf/task"), false), GateAction::Forward);
    assert_eq!(pow_gate(&cfg, &e, &request("/favicon.ico"), false), GateAction::Forward);
    let mut sw = request("/sw.JS");
    sw.service_worker = Some(" Script ".to_string());
    assert!(is_service_worker_request(&sw));
    assert_eq!(pow_gate(&cfg, &e, &sw, false), GateAction::Forward);
    let mut post = sw.clone();
    post.method = "POST".to_string();
    assert_eq!(pow_gate(&cfg, &e, &post, false), GateAction::Challenge(3));
    assert!(is_pow_path("/__cowcatwaf"));
    assert!(!is_pow_path("/__cowcat"));
}

#[test]
fn gate_default_paths() {
    let e = no_rules();
    assert_eq!(pow_gate(&pow_config(0), &e, &request("/x"), false), GateAction::Forward);
    assert_eq!(pow_gate(&pow_config(2), &e, &request("/x"), false), GateAction::Challenge(2));
    assert_eq!(pow_gate(&pow_config(2), &e, &request("/x"), true), GateAction::Forward);
}

#[test]
fn gate_challenge_delta_to_zero_forwards() {
    let mut r = RuleConfig::default();
    r.action = RuleAction::Challenge;
    r.difficulty_delta = Some(-5);
    let e = RulesEngine::from_config(&RulesConfig { enabled: true, default_action: RuleAction::Challenge, rule: vec![r] }).unwrap();
    assert_eq!(pow_gate(&pow_config(3), &e, &request("/x"), false), GateAction::Forward);
}

#[test]
fn client_ip_resolution() {
    assert_eq!(header_ip(" 1.2.3.4 , 5.6.7.8"), Some("1.2.3.4".to_string()));
    assert_eq!(header_ip(" , 5.6.7.8"), None);
    let (ip, src) = resolve_request_ip(Some("9.9.9.9"), Some("1.1.1.1"), "7.7.7.7");
    assert_eq!((ip.as_str(), src), ("9.9.9.9", IpSource::XRealIp));
    let (ip, src) = resolve_request_ip(None, Some("1.1.1.1, 2.2.2.2"), "7.7.7.7");
    assert_eq!((ip.as_str(), src), ("1.1.1.1", IpSource::XForwardedFor));
    let (ip, src) = resolve_request_ip(None, None, "7.7.7.7");
    assert_eq!((ip.as_str(), src), ("7.7.7.7", IpSource::ClientIp));
    assert_eq!(IpSource::XRealIp.get_string(), "x_real_ip");
    assert_eq!(extract_client_ip(IpPolicy::Disabled, Some("1.1.1.1"), None, "7.7.7.7"), "");
    assert_eq!(extract_client_ip(IpPolicy::Enable, Some("1.1.1.1"), Some("2.2.2.2"), "7.7.7.7"), "1.1.1.1");
    assert_eq!(extract_client_ip(IpPolicy::Enable, None, Some("2.2.2.2"), "7.7.7.7"), "2.2.2.2");
    assert_eq!(extract_client_ip(IpPolicy::Strict, Some("1.1.1.1"), None, "7.7.7.7"), "7.7.7.7");
}

#[test]
fn config_defaults_and_validation() {
    let mut c = Config::default();
    assert_eq!(c.pow.difficulty, 3);
    assert_eq!(c.server.listen, "0.0.0.0:8080");
    c.pow.difficulty = 0;
    c.pow.workers = -1;
    c.pow.worker_type = "  ".to_string();
    c.server.listen = String::new();
    c.apply_defaults();
    assert_eq!(c.pow.difficulty, 0);
    assert_eq!(c.pow.workers, 4);
    assert_eq!(c.pow.worker_type, "wasm");
    assert_eq!(c.server.listen, "0.0.0.0:8080");
    assert_eq!(c.validate(), Ok(()));
    c.pow.difficulty = 11;
    assert_eq!(c.validate(), Err(ConfigError::DifficultyOutOfRange));
    c.pow.difficulty = 1;
    c.pow.workers = 9;
    assert_eq!(c.validate(), Err(ConfigError::WorkersOutOfRange));
    c.pow.workers = 8;
    c.pow.worker_type = "js".to_string();
    assert_eq!(c.validate(), Err(ConfigError::UnknownWorkerType));
}

#[test]
fn cookie_round_trip_with_json_payload() {
    let p = new_token_payload(8, "example.com", "47DEQpj8HBQ=", "9QRzRBIvDe4=", "1234", 1_700_000_000, 86_400);
    let mut m = serde_json::Map::new();
    m.insert("v".to_string(), serde_json::Value::String(p.v.clone()));
    m.insert("exp".to_string(), serde_json::Value::from(p.exp));
    m.insert("bits".to_string(), serde_json::Value::from(p.bits));
    m.insert("scope".to_string(), serde_json::Value::String(p.scope.clone()));
    m.insert("ua".to_string(), serde_json::Value::String(p.ua.clone()));
    m.insert("ip".to_string(), serde_json::Value::String(p.ip.clone().unwrap()));
    m.insert("nonce".to_string(), serde_json::Value::String(p.nonce.clone()));
    let json = serde_json::to_vec(&serde_json::Value::Object(m)).unwrap();
    let token = seal_token("0123456789abcdef0123456789abcdef", &json);
    let opened = open_token("0123456789abcdef0123456789abcdef", &token).unwrap();
    let v: serde_json::Value = serde_json::from_slice(&opened).unwrap();
    assert_eq!(v["v"], "v1");
    assert_eq!(v["exp"], 1_700_086_400i64);
    assert_eq!(v["bits"], 8);
    assert_eq!(v["scope"], "example.com");
    assert_eq!(v["ua"], "47DEQpj8HBQ=");
    assert_eq!(v["ip"], "9QRzRBIvDe4=");
    assert_eq!(v["nonce"], "1234");
    assert!(payload_is_current(&p, 1_700_086_400));
    assert!(!payload_is_current(&p, 1_700_086_401));
}
