use cowcat::challenge::{
    admission_cookie, build_task, compress_challenge_body, cookie_lifetime, failure_message, ChallengeBody, issue_challenge, issue_task, parse_verify_body, redirect_after_verify, render_template,
    content_type_for, cache_control_for, verify_submission, ClientContext, PageAssets, TaskFailure, VerifyFailure,
};
use cowcat::config::{IpPolicy, PowConfig, RuleConfig, RulesConfig};
use cowcat::crypto::compute_ua_hash;
use cowcat::frame::{
    append_tlv, decode_frame, decode_task_response, deobfuscate_frame, encode_frame, encode_task_request,
    encode_verify_request, parse_tlv, xor_key_bytes, FrameError,
};
use cowcat::gate::{cookie_admits, pow_gate, GateAction, GateRequest};
use cowcat::pow::verify_pow;
use cowcat::rules::{RuleAction, RulesEngine};
use cowcat::task_store::{ConsumeError, IpHash, Scope, Seed, Task, TaskId, TaskStore, UaHash};
use cowcat::token::{new_token_payload, open_token, payload_is_current, seal_token};

const NOW: i64 = 1_700_000_000;

fn ctx(ua: &str) -> ClientContext {
    ClientContext { user_agent: ua.to_string(), host: Some("example.com".to_string()), binding_ip: String::new() }
}

fn pow_config(difficulty: i32) -> PowConfig {
    let mut c = PowConfig::default();
    c.difficulty = difficulty;
    c
}

fn get(path: &str) -> GateRequest {
    GateRequest {
        method: "GET".to_string(),
        path: path.to_string(),
        sec_fetch_dest: None,
        service_worker: None,
        headers: Vec::new(),
        rule_ip: None,
    }
}

fn issued_task(store: &mut TaskStore, cfg: &PowConfig, ua: &str) -> Task {
    let mut frame = issue_task(store, cfg, &ctx(ua), &[], NOW).unwrap();
    deobfuscate_frame(&mut frame, &xor_key_bytes());
    let (t, payload) = decode_frame(&frame).unwrap();
    assert_eq!(t, 2);
    let r = decode_task_response(&payload).unwrap();
    Task {
        task_id: TaskId(r.task_id),
        seed: Seed(r.seed),
        bits: r.bits as u32,
        exp: r.exp,
        scope: Scope(r.scope),
        ua_hash: UaHash(r.ua_hash),
        ip_hash: IpHash(r.ip_hash),
    }
}

fn solve(task: &Task) -> String {
    (0u64..).map(|n| n.to_string()).find(|n| verify_pow(task, n)).unwrap()
}

fn verify_body(task_id: &str, nonce: &str, redirect: &str) -> Vec<u8> {
    encode_verify_request(task_id.as_bytes(), nonce.as_bytes(), redirect.as_bytes())
}

#[test]
fn happy_path() {
    let cfg = pow_config(1);
    let engine = RulesEngine::from_config(&RulesConfig::default()).unwrap();
    assert_eq!(pow_gate(&cfg, &engine, &get("/page"), false), GateAction::Challenge(1));
    let mut store = TaskStore::new();
    let page = PageAssets {
        template: "<p>{{ TaskData }}|{{ RedirectURL }}</p>".to_string(),
        cowcat_image1: String::new(),
        cowcat_image2: String::new(),
    };
    let html = issue_challenge(&mut store, &cfg, &ctx("UA"), 1, NOW, &page, "/page?x=1").unwrap();
    assert!(html.ends_with("|/page?x=1</p>"));
    assert_eq!(store.len(), 1);
    let data = html.trim_start_matches("<p>").split('|').next().unwrap();
    let frame = base64::Engine::decode(&base64::engine::general_purpose::STANDARD, data).unwrap();
    let (t, payload) = decode_frame(&frame).unwrap();
    assert_eq!(t, 2);
    let embedded = decode_task_response(&payload).unwrap();
    assert_eq!(embedded.bits, 4);
    assert_eq!(embedded.scope, "example.com");
    let task = issued_task(&mut store, &cfg, "UA");
    assert_eq!(task.bits, 4);
    assert_eq!(task.exp, NOW + 120);
    assert_eq!(task.scope.0, "example.com");
    let nonce = solve(&task);
    let ua_hash = compute_ua_hash("UA");
    let ok = verify_submission(&mut store, &cfg, &verify_body(&task.task_id.0, &nonce, "/page?x=1"), &ua_hash, "", NOW)
        .unwrap();
    assert_eq!(ok.redirect, "/page?x=1");
    let (t, payload) = decode_frame(&ok.frame).unwrap();
    assert_eq!(t, 4);
    assert_eq!(parse_tlv(&payload).unwrap()[0].value, b"/page?x=1".to_vec());
    let p = new_token_payload(ok.task.bits as i32, &ok.task.scope.0, &ok.task.ua_hash.0, &ok.task.ip_hash.0, &ok.nonce, NOW, 24 * 3600);
    let json = format!(r#"{{"v":"v1","exp":{},"nonce":"{}"}}"#, p.exp, p.nonce);
    let cookie = seal_token("0123456789abcdef0123456789abcdef", json.as_bytes());
    assert_eq!(open_token("0123456789abcdef0123456789abcdef", &cookie), Some(json.into_bytes()));
    assert!(payload_is_current(&p, NOW + 10));
    let admitted = cookie_admits(&p, &ua_hash, IpPolicy::Disabled, "");
    assert_eq!(pow_gate(&cfg, &engine, &get("/page"), admitted), GateAction::Forward);
}

#[test]
fn replay() {
    let cfg = pow_config(1);
    let mut store = TaskStore::new();
    let task = issued_task(&mut store, &cfg, "UA");
    let nonce = solve(&task);
    let ua_hash = compute_ua_hash("UA");
    let body = verify_body(&task.task_id.0, &nonce, "/");
    assert!(verify_submission(&mut store, &cfg, &body, &ua_hash, "", NOW).is_ok());
    let err = verify_submission(&mut store, &cfg, &body, &ua_hash, "", NOW).unwrap_err();
    assert!(matches!(err, VerifyFailure::Rejected(ConsumeError::NotFound)));
    assert_eq!(failure_message(err), "task not found or expired");
}

#[test]
fn ua_mismatch() {
    let cfg = pow_config(1);
    let mut store = TaskStore::new();
    let task = issued_task(&mut store, &cfg, "A");
    let nonce = solve(&task);
    let body = verify_body(&task.task_id.0, &nonce, "/");
    let err = verify_submission(&mut store, &cfg, &body, &compute_ua_hash("B"), "", NOW).unwrap_err();
    assert_eq!(failure_message(err), "user agent mismatch");
    let err = verify_submission(&mut store, &cfg, &body, &compute_ua_hash("A"), "", NOW).unwrap_err();
    assert_eq!(failure_message(err), "task not found or expired");
}

#[test]
fn rule_block() {
    let mut r = RuleConfig::default();
    r.action = RuleAction::Block;
    r.path_prefix = Some("/admin".to_string());
    let engine = RulesEngine::from_config(&RulesConfig { enabled: true, default_action: RuleAction::Challenge, rule: vec![r] })
        .unwrap();
    let cfg = pow_config(3);
    assert_eq!(pow_gate(&cfg, &engine, &get("/admin/x"), false), GateAction::Block);
    assert_eq!(pow_gate(&cfg, &engine, &get("/admin/x"), true), GateAction::Forward);
    assert_eq!(pow_gate(&cfg, &engine, &get("/public"), false), GateAction::Challenge(3));
}

#[test]
fn expiry() {
    let cfg = pow_config(1);
    let mut store = TaskStore::new();
    let task = issued_task(&mut store, &cfg, "UA");
    let nonce = solve(&task);
    let body = verify_body(&task.task_id.0, &nonce, "/");
    let err = verify_submission(&mut store, &cfg, &body, &compute_ua_hash("UA"), "", NOW + 121).unwrap_err();
    assert_eq!(failure_message(err), "task expired");
    assert_eq!(store.len(), 0);
}

#[test]
fn test_mode() {
    let mut cfg = pow_config(2);
    cfg.test_mode = true;
    let engine = RulesEngine::from_config(&RulesConfig::default()).unwrap();
    assert_eq!(pow_gate(&cfg, &engine, &get("/anything"), true), GateAction::Challenge(2));
    assert_eq!(pow_gate(&cfg, &engine, &get("/__cowcatwaf/ok"), false), GateAction::Forward);
    let mut store = TaskStore::new();
    let task = issued_task(&mut store, &cfg, "UA");
    let nonce = solve(&task);
    let ok = verify_submission(&mut store, &cfg, &verify_body(&task.task_id.0, &nonce, "/page"), &compute_ua_hash("UA"), "", NOW)
        .unwrap();
    assert_eq!(ok.redirect, "/__cowcatwaf/ok");
    assert_eq!(redirect_after_verify(false, ""), "/");
}

#[test]
fn task_request_frames() {
    let cfg = pow_config(1);
    let mut store = TaskStore::new();
    let body = encode_task_request(b"/page");
    assert_eq!(&body[..4], &[b'C', b'W', 1, 1]);
    assert!(issue_task(&mut store, &cfg, &ctx("UA"), &body, NOW).is_ok());
    let mut manual = encode_frame(3, append_tlv(append_tlv(Vec::new(), 0x02, b"id"), 0x0a, b"7"));
    deobfuscate_frame(&mut manual, &xor_key_bytes());
    let req = parse_verify_body(&manual).unwrap();
    assert_eq!((req.task_id.as_str(), req.nonce.as_str(), req.redirect.as_str()), ("id", "7", ""));
    let req = parse_verify_body(&encode_verify_request(b"id", b"7", b"/r")).unwrap();
    assert_eq!(req.redirect, "/r");
}

#[test]
fn admission_cookie_attributes() {
    assert_eq!(cookie_lifetime(24), Some(86_400));
    assert_eq!(cookie_lifetime(i64::MAX), None);
    let c = admission_cookie("tok".to_string(), 86_400, true);
    assert_eq!((c.name.as_str(), c.value.as_str(), c.path.as_str()), ("cowcat.waf.token", "tok", "/"));
    assert!(c.http_only && c.secure);
    assert_eq!(c.max_age, 86_400);
    assert!(!admission_cookie("t".to_string(), 1, false).secure);
}

#[test]
fn challenge_body_compression() {
    assert!(matches!(compress_challenge_body(b"page", false, false), ChallengeBody::Plain));
    assert!(matches!(compress_challenge_body(b"page", true, true), ChallengeBody::Plain));
    match compress_challenge_body(b"<html>page</html>", true, false) {
        ChallengeBody::Gzipped(v) => {
            let mut out = String::new();
            std::io::Read::read_to_string(&mut flate2::read::GzDecoder::new(v.as_slice()), &mut out).unwrap();
            assert_eq!(out, "<html>page</html>");
        }
        other => panic!("not gzipped: {:?}", other),
    }
}

#[test]
fn invalid_requests() {
    let cfg = pow_config(1);
    let mut store = TaskStore::new();
    let err = issue_task(&mut store, &cfg, &ctx("UA"), &[1, 2, 3], NOW).unwrap_err();
    assert_eq!(err, TaskFailure::InvalidRequest(FrameError::TooShort));
    let wrong = encode_frame(3, Vec::new());
    assert_eq!(issue_task(&mut store, &cfg, &ctx("UA"), &wrong, NOW).unwrap_err(), TaskFailure::InvalidRequest(FrameError::WrongFrameType));
    assert!(matches!(parse_verify_body(&[]), Err(FrameError::TooShort)));
    let err = verify_submission(&mut store, &cfg, &[0u8; 4], "", "", NOW).unwrap_err();
    assert_eq!(failure_message(err), "invalid request");
    let mut no_nonce = encode_frame(3, append_tlv(Vec::new(), 0x02, b"id"));
    deobfuscate_frame(&mut no_nonce, &xor_key_bytes());
    assert!(matches!(parse_verify_body(&no_nonce), Err(FrameError::MissingField)));
}

#[test]
fn wrong_nonce_and_ip_binding() {
    let mut cfg = pow_config(10);
    cfg.ip_policy = IpPolicy::Strict;
    let mut store = TaskStore::new();
    let mut c = ctx("UA");
    c.binding_ip = "10.0.0.1".to_string();
    let _ = issue_task(&mut store, &cfg, &c, &[], NOW).unwrap();
    let t = build_task(10, &c, IpPolicy::Strict, NOW).unwrap();
    assert_eq!(t.bits, 40);
    assert_eq!(t.ip_hash.0, "9QRzRBIvDe4=");
    store.insert(t.clone());
    let ua = compute_ua_hash("UA");
    let body = verify_body(&t.task_id.0, "0", "/");
    let err = verify_submission(&mut store, &cfg, &body, &ua, "other", NOW).unwrap_err();
    assert_eq!(failure_message(err), "ip address mismatch");
    store.insert(t.clone());
    let err = verify_submission(&mut store, &cfg, &body, &ua, "9QRzRBIvDe4=", NOW).unwrap_err();
    assert_eq!(failure_message(err), "invalid proof of work");
}

#[test]
fn store_consume_and_cleanup() {
    let mut store = TaskStore::new();
    let mk = |id: &str, exp: i64| Task {
        task_id: TaskId(id.to_string()),
        seed: Seed("s".to_string()),
        bits: 0,
        exp,
        scope: Scope("h".to_string()),
        ua_hash: UaHash("u".to_string()),
        ip_hash: IpHash(String::new()),
    };
    store.insert(mk("a", 10));
    store.insert(mk("b", 100));
    store.insert(mk("a", 50));
    assert_eq!(store.len(), 2);
    assert_eq!(TaskId("abcdefgh".to_string()).short_id(), "abcdef");
    assert_eq!(TaskId("ab".to_string()).short_id(), "ab");
    let r = store.consume_if("a", 20, |_| Err(ConsumeError::ValidationFailed("no")));
    assert!(matches!(r, Err(ConsumeError::ValidationFailed("no"))));
    assert_eq!(store.len(), 1);
    assert!(matches!(store.consume_if("b", 101, |_| Ok(())), Err(ConsumeError::Expired)));
    store.insert(mk("c", 5));
    store.insert(mk("d", 500));
    store.cleanup(100);
    assert_eq!(store.len(), 1);
    assert_eq!(store.consume_if("d", 100, |_| Ok(())).unwrap().exp, 500);
}

#[test]
fn page_rendering_and_assets() {
    let html = render_template("{{ TaskData }}-{{ RedirectURL }}-{{ CowcatImage1 }}-{{ CowcatImage2 }}-{{ TaskData }}", "T", "/r", "I1", "I2");
    assert_eq!(html, "T-/r-I1-I2-T");
    assert_eq!(content_type_for("assets/catpaw.wasm"), "application/wasm");
    assert_eq!(content_type_for("a/b.JPG"), "application/octet-stream");
    assert_eq!(content_type_for("x.woff2"), "font/woff2");
    assert_eq!(cache_control_for("assets/catpaw.worker.js"), "private, max-age=0, no-store, no-cache, must-revalidate, post-check=0, pre-check=0");
    assert_eq!(cache_control_for("assets/cowcat1.webp"), "public, max-age=86400");
    assert_eq!(cache_control_for("assets/site.css"), "public, no-cache");
}
