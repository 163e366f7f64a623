//! The per-request admission filter: forward, block, or challenge.
use vstd::prelude::*;
use vstd::utf8::*;
use crate::bytes_text::str_eq;
use crate::config::{IpPolicy, PowConfig};
use crate::rules::{effective_difficulty, evaluation, clamped, IpAddress, RequestHeader, RuleAction, RulesEngine};
use crate::text::{ascii_lower, ends_with, has_prefix, has_suffix, starts_with, to_ascii_lower, trim, trimmed};
use crate::token::TokenPayload;

verus! {

/// Where the internal routes live.
pub const POW_PREFIX: &'static str = "/__cowcatwaf";

/// The name of the admission cookie.
pub const POW_COOKIE_NAME: &'static str = "cowcat.waf.token";

/// What the admission filter does with a request.
#[derive(Debug, Clone, Copy, PartialEq, Eq, Structural)]
pub enum GateAction {
    /// Pass the request on.
    Forward,
    /// Answer 403 with no body.
    Block,
    /// Answer with a challenge page at this difficulty.
    Challenge(i32),
}

/// What the admission filter reads of a request.
#[derive(Debug, Clone)]
pub struct GateRequest {
    pub method: String,
    pub path: String,
    /// The `sec-fetch-dest` header, when present as text.
    pub sec_fetch_dest: Option<String>,
    /// The `service-worker` header, when present as text.
    pub service_worker: Option<String>,
    /// All headers, for the rules.
    pub headers: Vec<RequestHeader>,
    /// The client address for the rules, when it parses.
    pub rule_ip: Option<IpAddress>,
}

/// The pairs that a `Cookie` header holds, in order, leaving out those
/// that do not parse.
pub uninterp spec fn cookie_pairs_of(raw: Seq<char>) -> Seq<(Seq<char>, Seq<char>)>;

/// Relies on `cookie::Cookie::split_parse`: the name and value of each
/// cookie that parses, in order; the result depends on the text alone.
#[verifier::external_body]
fn cookie_pairs(raw: &str) -> (r: Vec<(String, String)>)
    ensures
        r@.len() == cookie_pairs_of(raw@).len(),
        forall|i: int| 0 <= i < r@.len() ==> (#[trigger] r@[i]).0@ == cookie_pairs_of(raw@)[i].0 && r@[i].1@ == cookie_pairs_of(raw@)[i].1,
{
    cookie::Cookie::split_parse(raw).flatten().map(|c| (c.name().to_string(), c.value().to_string())).collect()
}

/// The value of the first admission cookie among `pairs`.
pub open spec fn first_admission_cookie(pairs: Seq<(Seq<char>, Seq<char>)>) -> Option<Seq<char>>
    decreases pairs.len(),
{
    if pairs.len() == 0 {
        None
    } else if pairs[0].0 == POW_COOKIE_NAME@ {
        Some(pairs[0].1)
    } else {
        first_admission_cookie(pairs.subrange(1, pairs.len() as int))
    }
}

/// The value of the admission cookie in a `Cookie` header.
pub fn extract_cookie(raw: &str) -> (r: Option<String>)
    ensures
        match (r, first_admission_cookie(cookie_pairs_of(raw@))) {
            (Some(a), Some(b)) => a@ == b,
            (None, None) => true,
            _ => false,
        },
{
    let pairs = cookie_pairs(raw);
    let ghost all = cookie_pairs_of(raw@);
    let mut i: usize = 0;
    assert(all.subrange(0, all.len() as int) == all);
    while i < pairs.len()
        invariant
            0 <= i <= pairs@.len(),
            pairs@.len() == all.len(),
            all == cookie_pairs_of(raw@),
            forall|k: int| 0 <= k < pairs@.len() ==> (#[trigger] pairs@[k]).0@ == all[k].0 && pairs@[k].1@ == all[k].1,
            first_admission_cookie(all) == first_admission_cookie(all.subrange(i as int, all.len() as int)),
        decreases pairs@.len() - i,
    {
        let ghost rest = all.subrange(i as int, all.len() as int);
        assert(rest[0] == all[i as int]);
        assert(rest.subrange(1, rest.len() as int) == all.subrange(i + 1, all.len() as int));
        assert(pairs@[i as int].0@ == all[i as int].0);
        if str_eq(pairs[i].0.as_str(), POW_COOKIE_NAME) {
            assert(first_admission_cookie(rest) == Some(all[i as int].1));
            let v = pairs[i].1.clone();
            assert(v@ == all[i as int].1);
            return Some(v);
        }
        i = i + 1;
    }
    None
}

/// Whether `path` is under the internal prefix.
pub open spec fn is_internal(path: Seq<char>) -> bool {
    has_prefix(encode_utf8(path), encode_utf8(POW_PREFIX@))
}

/// Whether `path` is under the internal prefix.
pub fn is_pow_path(path: &str) -> (r: bool)
    ensures
        r == is_internal(path@),
{
    starts_with(path.as_bytes(), POW_PREFIX.as_bytes())
}

/// A header value as the filter compares it: trimmed and lower-cased, the
/// empty text when absent.
pub open spec fn folded(v: Option<String>) -> Seq<u8> {
    match v {
        Some(s) => ascii_lower(encode_utf8(trimmed(s@))),
        None => Seq::empty(),
    }
}

/// Whether the request loads a service-worker script: a GET or HEAD, with
/// `sec-fetch-dest: serviceworker` or `service-worker: script`, for a path
/// ending in `.js` or `.mjs` in any case.
pub open spec fn is_service_worker_load(req: GateRequest) -> bool {
    &&& (req.method@ == "GET"@ || req.method@ == "HEAD"@)
    &&& (folded(req.sec_fetch_dest) == encode_utf8("serviceworker"@) || folded(req.service_worker) == encode_utf8("script"@))
    &&& (has_suffix(ascii_lower(encode_utf8(req.path@)), encode_utf8(".js"@))
        || has_suffix(ascii_lower(encode_utf8(req.path@)), encode_utf8(".mjs"@)))
}

fn fold_header(v: &Option<String>) -> (r: Vec<u8>)
    ensures
        r@ == folded(*v),
{
    match v {
        Some(s) => to_ascii_lower(trim(s.as_str()).as_bytes()),
        None => Vec::new(),
    }
}

/// Whether the request loads a service-worker script.
pub fn is_service_worker_request(req: &GateRequest) -> (r: bool)
    ensures
        r == is_service_worker_load(*req),
{
    let m = req.method.as_str();
    if !str_eq(m, "GET") && !str_eq(m, "HEAD") {
        return false;
    }
    let dest = fold_header(&req.sec_fetch_dest);
    let sw = fold_header(&req.service_worker);
    if !crate::bytes_text::bytes_eq(dest.as_slice(), "serviceworker".as_bytes())
        && !crate::bytes_text::bytes_eq(sw.as_slice(), "script".as_bytes()) {
        return false;
    }
    let path = to_ascii_lower(req.path.as_str().as_bytes());
    ends_with(path.as_slice(), ".js".as_bytes()) || ends_with(path.as_slice(), ".mjs".as_bytes())
}

/// Whether a verified cookie payload is bound to this client: its user
/// agent hash matches, and, when addresses are bound, its address hash
/// (empty when absent) matches too.
pub open spec fn cookie_bound(p: TokenPayload, ua_hash: Seq<char>, policy: IpPolicy, ip_hash: Seq<char>) -> bool {
    &&& p.ua@ == ua_hash
    &&& (policy != IpPolicy::Disabled ==> match p.ip {
        Some(ip) => ip@ == ip_hash,
        None => ip_hash.len() == 0,
    })
}

/// Whether a verified cookie payload is bound to this client.
pub fn cookie_admits(p: &TokenPayload, ua_hash: &str, policy: IpPolicy, ip_hash: &str) -> (r: bool)
    ensures
        r == cookie_bound(*p, ua_hash@, policy, ip_hash@),
{
    if !str_eq(p.ua.as_str(), ua_hash) {
        return false;
    }
    if policy != IpPolicy::Disabled {
        let ok = match &p.ip {
            Some(ip) => str_eq(ip.as_str(), ip_hash),
            None => ip_hash.unicode_len() == 0,
        };
        if !ok {
            return false;
        }
    }
    true
}

/// The filter's decision, in order: difficulty 0 forwards; internal paths,
/// `/favicon.ico` and service-worker loads forward; test mode challenges;
/// an admitting cookie forwards; then the rules decide (a challenge whose
/// clamped difficulty is 0 forwards); with rules disabled, a challenge at
/// the base difficulty.
pub open spec fn gate_outcome(cfg: PowConfig, engine: RulesEngine, req: GateRequest, cookie_ok: bool) -> GateAction {
    if cfg.difficulty == 0 {
        GateAction::Forward
    } else if is_internal(req.path@) {
        GateAction::Forward
    } else if req.path@ == "/favicon.ico"@ {
        GateAction::Forward
    } else if is_service_worker_load(req) {
        GateAction::Forward
    } else if cfg.test_mode {
        GateAction::Challenge(cfg.difficulty)
    } else if cookie_ok {
        GateAction::Forward
    } else {
        match evaluation(engine, req.path@, req.headers@, req.rule_ip) {
            Some(d) => match d.action {
                RuleAction::Allow => GateAction::Forward,
                RuleAction::Block => GateAction::Block,
                RuleAction::Challenge => {
                    let e = clamped(cfg.difficulty as int + d.difficulty_delta as int);
                    if e == 0 {
                        GateAction::Forward
                    } else {
                        GateAction::Challenge(e as i32)
                    }
                },
            },
            None => GateAction::Challenge(cfg.difficulty),
        }
    }
}

/// Decides what to do with a request. `cookie_ok` says whether the request
/// carried an admission cookie that verified and is bound to this client.
pub fn pow_gate(cfg: &PowConfig, engine: &RulesEngine, req: &GateRequest, cookie_ok: bool) -> (r: GateAction)
    requires
        engine.wf(),
    ensures
        r == gate_outcome(*cfg, *engine, *req, cookie_ok),
{
    if cfg.difficulty == 0 {
        return GateAction::Forward;
    }
    if is_pow_path(req.path.as_str()) {
        return GateAction::Forward;
    }
    if str_eq(req.path.as_str(), "/favicon.ico") {
        return GateAction::Forward;
    }
    if is_service_worker_request(req) {
        return GateAction::Forward;
    }
    if cfg.test_mode {
        return GateAction::Challenge(cfg.difficulty);
    }
    if cookie_ok {
        return GateAction::Forward;
    }
    match engine.evaluate(req.path.as_str(), req.headers.as_slice(), req.rule_ip) {
        Some(d) => match d.action {
            RuleAction::Allow => GateAction::Forward,
            RuleAction::Block => GateAction::Block,
            RuleAction::Challenge => {
                let e = effective_difficulty(cfg.difficulty, d.difficulty_delta);
                if e == 0 {
                    GateAction::Forward
                } else {
                    GateAction::Challenge(e)
                }
            },
        },
        None => GateAction::Challenge(cfg.difficulty),
    }
}

/// With gating on, a request for an internal path, for `/favicon.ico`, or
/// that loads a service-worker script is forwarded, whatever its cookie,
/// the test mode and the rules.
pub proof fn lemma_bypass_paths(cfg: PowConfig, engine: RulesEngine, req: GateRequest, cookie_ok: bool)
    requires
        is_internal(req.path@) || req.path@ == "/favicon.ico"@ || is_service_worker_load(req),
    ensures
        gate_outcome(cfg, engine, req, cookie_ok) == GateAction::Forward,
{
}

} // verus!
