//! The challenge protocol: issuing tasks, checking verify requests against
//! the store, and rendering the challenge page.
use vstd::prelude::*;
use vstd::utf8::*;
use crate::config::{IpPolicy, PowConfig};
use crate::crypto::{compute_ip_hash, compute_ua_hash, generate_random_id, generate_random_seed, short_hash, RandomError};
use crate::encoding::{b64_padded, b64_standard, hex_of};
use crate::frame::{
    decode_frame, decode_task_request, decode_verify_request, deobfuscate_frame, encode_error_frame,
    encode_frame, encode_task_response_frame, task_response_frame, encode_verify_response, frame_of, masked, task_payload, tlv_of,
    xor_key, xor_key_bytes, lemma_mask_involution, lemma_frame_round_trip, lemma_verify_request_entries,
    verify_request_payload, BinaryVerifyRequest, BinaryVerifyResponse, FrameError, FRAME_TYPE_TASK_REQUEST,
    FRAME_TYPE_TASK_RESPONSE, FRAME_TYPE_VERIFY_REQUEST, FRAME_TYPE_VERIFY_RESPONSE, TLV_REDIRECT,
};
use crate::gate::{POW_COOKIE_NAME, POW_PREFIX};
use crate::pow::{pow_solves, verify_pow};
use crate::rules::{clamp_difficulty, clamped};
use crate::task_store::{ConsumeError, IpHash, Scope, Seed, Task, TaskId, TaskStore, UaHash};
use crate::text::{contains, ends_with, has_infix, has_suffix};

verus! {

broadcast use {vstd::utf8::encode_utf8_valid_utf8, vstd::utf8::encode_utf8_decode_utf8};

pub const MSG_POW_VERIFIED: &'static str = "pow verified";
pub const MSG_POW_TASK_CREATED: &'static str = "pow task created";
pub const MSG_INVALID_REQUEST: &'static str = "invalid request";
pub const MSG_TASK_NOT_FOUND_OR_EXPIRED: &'static str = "task not found or expired";
pub const MSG_TASK_EXPIRED: &'static str = "task expired";
pub const MSG_USER_AGENT_MISMATCH: &'static str = "user agent mismatch";
pub const MSG_IP_ADDRESS_MISMATCH: &'static str = "ip address mismatch";
pub const MSG_INVALID_PROOF_OF_WORK: &'static str = "invalid proof of work";
pub const MSG_FAILED_TO_GENERATE_TASK: &'static str = "failed to generate task";

/// Seconds a task stays valid after issuance.
pub const TASK_TTL_SECONDS: i64 = 120;

/// What the protocol reads of the client.
#[derive(Debug, Clone)]
pub struct ClientContext {
    /// The `User-Agent` header, empty when absent.
    pub user_agent: String,
    /// The `Host` header, when present as text.
    pub host: Option<String>,
    /// The address a task is bound to under the configured policy.
    pub binding_ip: String,
}

/// The query of the challenge page.
#[derive(Debug, Clone)]
pub struct ChallengeQuery {
    pub redirect: Option<String>,
}

/// The parts the challenge page is made of.
#[derive(Debug, Clone)]
pub struct PageAssets {
    pub template: String,
    pub cowcat_image1: String,
    pub cowcat_image2: String,
}

/// The address hash a task or cookie carries under `policy`.
pub open spec fn bound_ip_hash(policy: IpPolicy, ip: Seq<char>) -> Seq<char> {
    if policy == IpPolicy::Disabled || ip.len() == 0 {
        Seq::empty()
    } else {
        short_hash(encode_utf8(ip))
    }
}

/// Whether `t` is a task issued at `now` for the client `ctx` at
/// `difficulty`: four bits per difficulty step after clamping, valid for
/// 120 s, scoped to the Host (or `unknown`), bound to the user agent and,
/// under the policy, to the address, with a fresh 128-bit id and 256-bit
/// seed.
pub open spec fn task_issued(t: Task, difficulty: i32, ctx: ClientContext, policy: IpPolicy, now: i64) -> bool {
    &&& t.bits == clamped(difficulty as int) * 4
    &&& t.exp == now + TASK_TTL_SECONDS
    &&& t.scope.0@ == match ctx.host {
        Some(h) => h@,
        None => "unknown"@,
    }
    &&& t.ua_hash.0@ == short_hash(encode_utf8(ctx.user_agent@))
    &&& t.ip_hash.0@ == bound_ip_hash(policy, ctx.binding_ip@)
    &&& exists|b: Seq<u8>| b.len() == 16 && t.task_id.0@ == hex_of(b)
    &&& exists|b: Seq<u8>| b.len() == 32 && t.seed.0@ == b64_padded(b, true)
}

/// Builds a fresh task for the client.
pub fn build_task(difficulty: i32, ctx: &ClientContext, policy: IpPolicy, now: i64) -> (r: Result<Task, RandomError>)
    requires
        now <= i64::MAX - TASK_TTL_SECONDS,
    ensures
        r matches Ok(t) ==> task_issued(t, difficulty, *ctx, policy, now),
{
    let ua_hash = compute_ua_hash(ctx.user_agent.as_str());
    let ip_hash = if policy != IpPolicy::Disabled {
        compute_ip_hash(ctx.binding_ip.as_str())
    } else {
        String::new()
    };
    let task_id = match generate_random_id() {
        Ok(id) => id,
        Err(e) => return Err(e),
    };
    let seed = match generate_random_seed() {
        Ok(s) => s,
        Err(e) => return Err(e),
    };
    let bits = (clamp_difficulty(difficulty) * 4) as u32;
    let scope = match &ctx.host {
        Some(h) => h.clone(),
        None => String::from_str("unknown"),
    };
    Ok(Task {
        task_id: TaskId(task_id),
        seed: Seed(seed),
        bits,
        exp: now + TASK_TTL_SECONDS,
        scope: Scope(scope),
        ua_hash: UaHash(ua_hash),
        ip_hash: IpHash(ip_hash),
    })
}

/// What the checks of a verify request decide for task `t`: the user
/// agent must match, then (when bound) the address, then the proof of work.
pub open spec fn validation(t: Task, ua_hash: Seq<char>, policy: IpPolicy, ip_hash: Seq<char>, nonce: Seq<char>) -> Result<(), ConsumeError> {
    if t.ua_hash.0@ != ua_hash {
        Err(ConsumeError::ValidationFailed(MSG_USER_AGENT_MISMATCH))
    } else if policy != IpPolicy::Disabled && t.ip_hash.0@ != ip_hash {
        Err(ConsumeError::ValidationFailed(MSG_IP_ADDRESS_MISMATCH))
    } else if !pow_solves(t, nonce) {
        Err(ConsumeError::ValidationFailed(MSG_INVALID_PROOF_OF_WORK))
    } else {
        Ok(())
    }
}

/// Checks a removed task against the verify request's client and nonce.
pub fn validate_task(t: &Task, ua_hash: &str, policy: IpPolicy, ip_hash: &str, nonce: &str) -> (r: Result<(), ConsumeError>)
    ensures
        r == validation(*t, ua_hash@, policy, ip_hash@, nonce@),
{
    if !crate::bytes_text::str_eq(t.ua_hash.0.as_str(), ua_hash) {
        return Err(ConsumeError::ValidationFailed(MSG_USER_AGENT_MISMATCH));
    }
    if policy != IpPolicy::Disabled && !crate::bytes_text::str_eq(t.ip_hash.0.as_str(), ip_hash) {
        return Err(ConsumeError::ValidationFailed(MSG_IP_ADDRESS_MISMATCH));
    }
    if !verify_pow(t, nonce) {
        return Err(ConsumeError::ValidationFailed(MSG_INVALID_PROOF_OF_WORK));
    }
    Ok(())
}

/// The outcome of a verify attempt on a store that maps ids to tasks.
pub open spec fn verify_outcome(
    m: Map<Seq<char>, Task>,
    id: Seq<char>,
    now: i64,
    ua_hash: Seq<char>,
    policy: IpPolicy,
    ip_hash: Seq<char>,
    nonce: Seq<char>,
) -> Result<Task, ConsumeError> {
    if !m.contains_key(id) {
        Err(ConsumeError::NotFound)
    } else if m[id].exp < now {
        Err(ConsumeError::Expired)
    } else {
        match validation(m[id], ua_hash, policy, ip_hash, nonce) {
            Ok(_) => Ok(m[id]),
            Err(e) => Err(e),
        }
    }
}

/// Consumes the task a verify request names and checks it; the task is
/// gone from the store whatever the outcome.
pub fn verify_task(
    store: &mut TaskStore,
    task_id: &str,
    nonce: &str,
    ua_hash: &str,
    policy: IpPolicy,
    ip_hash: &str,
    now: i64,
) -> (r: Result<Task, ConsumeError>)
    requires
        old(store).wf(),
    ensures
        final(store).wf(),
        final(store)@ == old(store)@.remove(task_id@),
        r == verify_outcome(old(store)@, task_id@, now, ua_hash@, policy, ip_hash@, nonce@),
{
    let check = |t: &Task| -> (res: Result<(), ConsumeError>)
        ensures
            res == validation(*t, ua_hash@, policy, ip_hash@, nonce@),
        { validate_task(t, ua_hash, policy, ip_hash, nonce) };
    store.consume_if(task_id, now, check)
}

/// The message sent back for a failed consume.
pub fn error_message(e: ConsumeError) -> (r: &'static str)
    ensures
        r == match e {
            ConsumeError::NotFound => MSG_TASK_NOT_FOUND_OR_EXPIRED,
            ConsumeError::Expired => MSG_TASK_EXPIRED,
            ConsumeError::ValidationFailed(m) => m,
        },
{
    match e {
        ConsumeError::NotFound => MSG_TASK_NOT_FOUND_OR_EXPIRED,
        ConsumeError::Expired => MSG_TASK_EXPIRED,
        ConsumeError::ValidationFailed(m) => m,
    }
}

/// Where the browser goes after a successful verify: the health route in
/// test mode, `/` when the request named none, else the requested place.
pub fn redirect_after_verify(test_mode: bool, redirect: &str) -> (r: String)
    ensures
        r@ == if test_mode {
            POW_PREFIX@ + "/ok"@
        } else if redirect@.len() == 0 {
            "/"@
        } else {
            redirect@
        },
{
    if test_mode {
        let mut out = String::from_str(POW_PREFIX);
        out.append("/ok");
        out
    } else if redirect.unicode_len() == 0 {
        String::from_str("/")
    } else {
        redirect.to_owned()
    }
}

/// Checks the body of a task request: an empty body is accepted; otherwise
/// it must be a task-request frame with a well-formed payload.
pub fn check_task_request(body: &[u8]) -> (r: Result<(), FrameError>)
    ensures
        r == check_request_outcome(body@),
{
    reveal(check_request_outcome);
    if body.len() == 0 {
        return Ok(());
    }
    let (frame_type, payload) = match decode_frame(body) {
        Ok(res) => res,
        Err(e) => return Err(e),
    };
    if frame_type != FRAME_TYPE_TASK_REQUEST {
        return Err(FrameError::WrongFrameType);
    }
    match decode_task_request(payload.as_slice()) {
        Ok(_) => Ok(()),
        Err(e) => Err(e),
    }
}

/// Reads a verify request: the body is unmasked, then must be a
/// verify-request frame whose payload names a task and a nonce.
pub fn parse_verify_body(body: &[u8]) -> (r: Result<BinaryVerifyRequest, FrameError>)
    ensures
        match (r, parse_verify_outcome(body@)) {
            (Ok(req), Ok((id, nonce, redirect))) => req.task_id@ == id && req.nonce@ == nonce && req.redirect@ == redirect,
            (Err(e), Err(x)) => e == x,
            _ => false,
        },
{
    if body.len() == 0 {
        return Err(FrameError::TooShort);
    }
    let mut data = crate::bytes_text::bytes_copy(body);
    let key = xor_key_bytes();
    deobfuscate_frame(&mut data, key.as_slice());
    let (frame_type, payload) = match decode_frame(data.as_slice()) {
        Ok(res) => res,
        Err(e) => return Err(e),
    };
    if frame_type != FRAME_TYPE_VERIFY_REQUEST {
        return Err(FrameError::WrongFrameType);
    }
    decode_verify_request(payload.as_slice())
}

/// The frame answering a successful verify.
pub fn verify_response_frame(redirect: String) -> (r: Vec<u8>)
    ensures
        r@ == frame_of(FRAME_TYPE_VERIFY_RESPONSE, tlv_of(TLV_REDIRECT, encode_utf8(redirect@))),
{
    let payload = encode_verify_response(BinaryVerifyResponse { redirect });
    encode_frame(FRAME_TYPE_VERIFY_RESPONSE, payload)
}


/// `s` with every occurrence of `from` replaced by `to`, scanning left to
/// right without overlap; an empty `from` matches before every character
/// and at the end.
pub open spec fn replaced(s: Seq<char>, from: Seq<char>, to: Seq<char>) -> Seq<char>
    decreases s.len(),
{
    if from.len() == 0 {
        if s.len() == 0 {
            to
        } else {
            to + seq![s[0]] + replaced(s.subrange(1, s.len() as int), from, to)
        }
    } else if s.len() < from.len() {
        s
    } else if s.subrange(0, from.len() as int) == from {
        to + replaced(s.subrange(from.len() as int, s.len() as int), from, to)
    } else {
        seq![s[0]] + replaced(s.subrange(1, s.len() as int), from, to)
    }
}

/// Relies on `str::replace`.
#[verifier::external_body]
pub(crate) fn replace_all(s: &str, from: &str, to: &str) -> (r: String)
    ensures
        r@ == replaced(s@, from@, to@),
{
    s.replace(from, to)
}

/// The challenge page: the template with its four placeholders filled in,
/// one after the other.
pub open spec fn rendered(template: Seq<char>, task_data: Seq<char>, redirect_url: Seq<char>, image1: Seq<char>, image2: Seq<char>) -> Seq<char> {
    replaced(
        replaced(
            replaced(replaced(template, "{{ TaskData }}"@, task_data), "{{ RedirectURL }}"@, redirect_url),
            "{{ CowcatImage1 }}"@,
            image1,
        ),
        "{{ CowcatImage2 }}"@,
        image2,
    )
}

/// Fills in the placeholders of the challenge page.
pub fn render_template(template: &str, task_data: &str, redirect_url: &str, cowcat_image1: &str, cowcat_image2: &str) -> (r: String)
    ensures
        r@ == rendered(template@, task_data@, redirect_url@, cowcat_image1@, cowcat_image2@),
{
    let a = replace_all(template, "{{ TaskData }}", task_data);
    let b = replace_all(a.as_str(), "{{ RedirectURL }}", redirect_url);
    let c = replace_all(b.as_str(), "{{ CowcatImage1 }}", cowcat_image1);
    replace_all(c.as_str(), "{{ CowcatImage2 }}", cowcat_image2)
}

/// Whether `path` ends with `ext`, compared as bytes.
pub open spec fn ends_in(path: Seq<char>, ext: Seq<char>) -> bool {
    has_suffix(encode_utf8(path), encode_utf8(ext))
}

/// The content type served for an asset, from its extension.
pub open spec fn content_type_of(path: Seq<char>) -> Seq<char> {
    if ends_in(path, ".js"@) {
        "application/javascript; charset=utf-8"@
    } else if ends_in(path, ".wasm"@) {
        "application/wasm"@
    } else if ends_in(path, ".webp"@) {
        "image/webp"@
    } else if ends_in(path, ".png"@) {
        "image/png"@
    } else if ends_in(path, ".jpg"@) || ends_in(path, ".jpeg"@) {
        "image/jpeg"@
    } else if ends_in(path, ".gif"@) {
        "image/gif"@
    } else if ends_in(path, ".svg"@) {
        "image/svg+xml"@
    } else if ends_in(path, ".css"@) {
        "text/css; charset=utf-8"@
    } else if ends_in(path, ".html"@) || ends_in(path, ".htm"@) {
        "text/html; charset=utf-8"@
    } else if ends_in(path, ".json"@) {
        "application/json; charset=utf-8"@
    } else if ends_in(path, ".woff"@) || ends_in(path, ".woff2"@) {
        "font/woff2"@
    } else if ends_in(path, ".ttf"@) {
        "font/ttf"@
    } else if ends_in(path, ".eot"@) {
        "application/vnd.ms-fontobject"@
    } else {
        "application/octet-stream"@
    }
}

fn has_ext(path: &str, ext: &str) -> (r: bool)
    ensures
        r == ends_in(path@, ext@),
{
    ends_with(path.as_bytes(), ext.as_bytes())
}

/// The content type served for an asset, from its extension.
pub fn content_type_for(path: &str) -> (r: &'static str)
    ensures
        r@ == content_type_of(path@),
{
    if has_ext(path, ".js") {
        "application/javascript; charset=utf-8"
    } else if has_ext(path, ".wasm") {
        "application/wasm"
    } else if has_ext(path, ".webp") {
        "image/webp"
    } else if has_ext(path, ".png") {
        "image/png"
    } else if has_ext(path, ".jpg") || has_ext(path, ".jpeg") {
        "image/jpeg"
    } else if has_ext(path, ".gif") {
        "image/gif"
    } else if has_ext(path, ".svg") {
        "image/svg+xml"
    } else if has_ext(path, ".css") {
        "text/css; charset=utf-8"
    } else if has_ext(path, ".html") || has_ext(path, ".htm") {
        "text/html; charset=utf-8"
    } else if has_ext(path, ".json") {
        "application/json; charset=utf-8"
    } else if has_ext(path, ".woff") || has_ext(path, ".woff2") {
        "font/woff2"
    } else if has_ext(path, ".ttf") {
        "font/ttf"
    } else if has_ext(path, ".eot") {
        "application/vnd.ms-fontobject"
    } else {
        "application/octet-stream"
    }
}

/// Whether `path` mentions `part`, compared as bytes.
pub open spec fn mentions(path: Seq<char>, part: Seq<char>) -> bool {
    has_infix(encode_utf8(path), encode_utf8(part))
}

fn has_part(path: &str, part: &str) -> (r: bool)
    ensures
        r == mentions(path@, part@),
{
    contains(path.as_bytes(), part.as_bytes())
}

/// The cache policy of an asset: never cached for the solver's files,
/// a day for images, revalidated otherwise.
pub open spec fn cache_control_of(path: Seq<char>) -> Seq<char> {
    if mentions(path, "catpaw.worker.js"@) || mentions(path, "catpaw.js"@) || mentions(path, "catpaw.min.js"@)
        || mentions(path, "catpaw.worker.min.js"@) || mentions(path, "catpaw.html"@) || mentions(path, "catpaw.wasm"@) {
        "private, max-age=0, no-store, no-cache, must-revalidate, post-check=0, pre-check=0"@
    } else if mentions(path, "webp"@) {
        "public, max-age=86400"@
    } else {
        "public, no-cache"@
    }
}

/// The cache policy of an asset.
pub fn cache_control_for(path: &str) -> (r: &'static str)
    ensures
        r@ == cache_control_of(path@),
{
    if has_part(path, "catpaw.worker.js") || has_part(path, "catpaw.js") || has_part(path, "catpaw.min.js")
        || has_part(path, "catpaw.worker.min.js") || has_part(path, "catpaw.html") || has_part(path, "catpaw.wasm") {
        "private, max-age=0, no-store, no-cache, must-revalidate, post-check=0, pre-check=0"
    } else if has_part(path, "webp") {
        "public, max-age=86400"
    } else {
        "public, no-cache"
    }
}

/// The frame that announces task `t` under the configuration, unmasked.
pub open spec fn task_frame(t: Task, cfg: PowConfig) -> Seq<u8> {
    frame_of(
        FRAME_TYPE_TASK_RESPONSE,
        task_payload(t.task_id.0@, t.seed.0@, t.bits as i32, t.exp, t.scope.0@, t.ua_hash.0@, t.ip_hash.0@,
            cfg.workers, cfg.worker_type@),
    )
}

/// The masked frame that answers a task request for task `t`.
pub open spec fn announced(t: Task, cfg: PowConfig) -> Seq<u8> {
    masked(task_frame(t, cfg), xor_key())
}

/// Issues a challenge: builds a task at `difficulty`, stores it, and
/// renders the page around the standard base64 of its frame. The page
/// carries the frame unmasked; only the answer to a task request is
/// masked, so the browser unmasks what it fetches and not what it finds in
/// the page.
pub fn issue_challenge(
    store: &mut TaskStore,
    cfg: &PowConfig,
    ctx: &ClientContext,
    difficulty: i32,
    now: i64,
    page: &PageAssets,
    redirect: &str,
) -> (r: Result<String, RandomError>)
    requires
        old(store).wf(),
        now <= i64::MAX - TASK_TTL_SECONDS,
    ensures
        final(store).wf(),
        r is Err ==> final(store)@ == old(store)@,
        r matches Ok(html) ==> exists|t: Task| {
            &&& task_issued(t, difficulty, *ctx, cfg.ip_policy, now)
            &&& final(store)@ == old(store)@.insert(t.task_id.0@, t)
            &&& html@ == rendered(page.template@, b64_padded(task_frame(t, *cfg), false), redirect@,
                page.cowcat_image1@, page.cowcat_image2@)
        },
{
    let task = match build_task(difficulty, ctx, cfg.ip_policy, now) {
        Ok(t) => t,
        Err(e) => return Err(e),
    };
    let frame = task_response_frame(&task, cfg.workers, cfg.worker_type.as_str());
    let ghost t = task;
    store.insert(task);
    let data = b64_standard(frame.as_slice());
    let html = render_template(page.template.as_str(), data.as_str(), redirect, page.cowcat_image1.as_str(),
        page.cowcat_image2.as_str());
    assert(task_issued(t, difficulty, *ctx, cfg.ip_policy, now));
    Ok(html)
}

/// Why a task request was turned away.
#[derive(Debug, Clone, Copy, PartialEq, Eq, Structural)]
pub enum TaskFailure {
    /// The body is not a task-request frame: HTTP 400.
    InvalidRequest(FrameError),
    /// No randomness for the task: HTTP 500.
    Random,
}

/// Answers a task request: checks the body, builds a task at the base
/// difficulty, stores it, and returns its masked frame.
pub fn issue_task(store: &mut TaskStore, cfg: &PowConfig, ctx: &ClientContext, body: &[u8], now: i64) -> (r: Result<Vec<u8>, TaskFailure>)
    requires
        old(store).wf(),
        now <= i64::MAX - TASK_TTL_SECONDS,
    ensures
        final(store).wf(),
        r is Err ==> final(store)@ == old(store)@,
        check_request_outcome(body@) matches Err(e) ==> r == Err::<Vec<u8>, TaskFailure>(TaskFailure::InvalidRequest(e)),
        check_request_outcome(body@) is Ok ==> (r is Ok || r == Err::<Vec<u8>, TaskFailure>(TaskFailure::Random)),
        r matches Ok(frame) ==> exists|t: Task| {
            &&& task_issued(t, cfg.difficulty, *ctx, cfg.ip_policy, now)
            &&& final(store)@ == old(store)@.insert(t.task_id.0@, t)
            &&& frame@ == announced(t, *cfg)
        },
{
    match check_task_request(body) {
        Ok(()) => {},
        Err(e) => return Err(TaskFailure::InvalidRequest(e)),
    }
    let task = match build_task(cfg.difficulty, ctx, cfg.ip_policy, now) {
        Ok(t) => t,
        Err(_) => return Err(TaskFailure::Random),
    };
    let frame = encode_task_response_frame(&task, cfg.workers, cfg.worker_type.as_str());
    let ghost t = task;
    assert(frame@ == announced(t, *cfg));
    store.insert(task);
    assert(task_issued(t, cfg.difficulty, *ctx, cfg.ip_policy, now));
    assert(final(store)@ == old(store)@.insert(t.task_id.0@, t));
    Ok(frame)
}

/// What the check of a task-request body decides.
#[verifier::opaque]
pub open spec fn check_request_outcome(body: Seq<u8>) -> Result<(), FrameError> {
    if body.len() == 0 {
        Ok(())
    } else {
        match crate::frame::frame_parse(body) {
            Err(e) => Err(e),
            Ok((t, p)) => if t != FRAME_TYPE_TASK_REQUEST {
                Err(FrameError::WrongFrameType)
            } else {
                match crate::frame::tlv_parse(p) {
                    Err(e) => Err(e),
                    Ok(_) => Ok(()),
                }
            },
        }
    }
}

/// A successful verify: the consumed task, the winning nonce, where to go
/// next, and the verify-response frame.
#[derive(Debug)]
pub struct VerifySuccess {
    pub task: Task,
    pub nonce: String,
    pub redirect: String,
    pub frame: Vec<u8>,
}

/// Why a verify request failed; every failure answers HTTP 400.
#[derive(Debug, Clone, Copy)]
pub enum VerifyFailure {
    InvalidRequest(FrameError),
    Rejected(ConsumeError),
}

/// The message of the error frame for a failed verify.
pub open spec fn failure_text(f: VerifyFailure) -> &'static str {
    match f {
        VerifyFailure::InvalidRequest(_) => MSG_INVALID_REQUEST,
        VerifyFailure::Rejected(e) => match e {
            ConsumeError::NotFound => MSG_TASK_NOT_FOUND_OR_EXPIRED,
            ConsumeError::Expired => MSG_TASK_EXPIRED,
            ConsumeError::ValidationFailed(m) => m,
        },
    }
}

/// The message of the error frame for a failed verify.
pub fn failure_message(f: VerifyFailure) -> (r: &'static str)
    ensures
        r == failure_text(f),
{
    match f {
        VerifyFailure::InvalidRequest(_) => MSG_INVALID_REQUEST,
        VerifyFailure::Rejected(e) => error_message(e),
    }
}

/// The error frame for a failed verify.
pub fn failure_frame(f: VerifyFailure) -> (r: Vec<u8>)
    ensures
        r@ == frame_of(crate::frame::FRAME_TYPE_ERROR, tlv_of(crate::frame::TLV_ERROR, encode_utf8(failure_text(f)@))),
{
    encode_error_frame(failure_message(f))
}

/// Answers a verify request: reads the masked body, consumes the task it
/// names, checks the client's hashes and the proof of work, and on success
/// returns the task, the nonce, the redirect and the response frame.
pub fn verify_submission(
    store: &mut TaskStore,
    cfg: &PowConfig,
    body: &[u8],
    ua_hash: &str,
    ip_hash: &str,
    now: i64,
) -> (r: Result<VerifySuccess, VerifyFailure>)
    requires
        old(store).wf(),
    ensures
        final(store).wf(),
        match parse_verify_outcome(body@) {
            Err(e) => final(store)@ == old(store)@ && (r matches Err(VerifyFailure::InvalidRequest(x)) && x == e),
            Ok((id, nonce, redirect)) => {
                &&& final(store)@ == old(store)@.remove(id)
                &&& match verify_outcome(old(store)@, id, now, ua_hash@, cfg.ip_policy, ip_hash@, nonce) {
                    Err(e) => r matches Err(VerifyFailure::Rejected(x)) && x == e,
                    Ok(t) => r matches Ok(s) && s.task == t && s.nonce@ == nonce
                        && s.redirect@ == (if cfg.test_mode {
                            POW_PREFIX@ + "/ok"@
                        } else if redirect.len() == 0 {
                            "/"@
                        } else {
                            redirect
                        })
                        && s.frame@ == frame_of(FRAME_TYPE_VERIFY_RESPONSE, tlv_of(TLV_REDIRECT, encode_utf8(s.redirect@))),
                }
            },
        },
{
    let req = match parse_verify_body(body) {
        Ok(req) => req,
        Err(e) => return Err(VerifyFailure::InvalidRequest(e)),
    };
    let task = match verify_task(store, req.task_id.as_str(), req.nonce.as_str(), ua_hash, cfg.ip_policy, ip_hash, now) {
        Ok(t) => t,
        Err(e) => return Err(VerifyFailure::Rejected(e)),
    };
    let redirect = redirect_after_verify(cfg.test_mode, req.redirect.as_str());
    let frame = verify_response_frame(redirect.clone());
    Ok(VerifySuccess { task, nonce: req.nonce, redirect, frame })
}

/// What reading a verify body gives: the task id, the nonce and the
/// redirect, or why it is refused.
pub open spec fn parse_verify_outcome(body: Seq<u8>) -> Result<(Seq<char>, Seq<char>, Seq<char>), FrameError> {
    if body.len() == 0 {
        Err(FrameError::TooShort)
    } else {
        match crate::frame::frame_parse(masked(body, xor_key())) {
            Err(e) => Err(e),
            Ok((t, p)) => if t != FRAME_TYPE_VERIFY_REQUEST {
                Err(FrameError::WrongFrameType)
            } else {
                match crate::frame::tlv_parse(p) {
                    Err(e) => Err(e),
                    Ok(f) => if crate::frame::text_or_empty(f, crate::frame::TLV_TASK_ID).len() == 0
                        || crate::frame::text_or_empty(f, crate::frame::TLV_NONCE).len() == 0 {
                        Err(FrameError::MissingField)
                    } else {
                        Ok((
                            crate::frame::text_or_empty(f, crate::frame::TLV_TASK_ID),
                            crate::frame::text_or_empty(f, crate::frame::TLV_NONCE),
                            crate::frame::text_or_empty(f, crate::frame::TLV_REDIRECT),
                        ))
                    },
                }
            },
        }
    }
}

/// A task that was consumed, whatever the outcome, cannot be consumed
/// successfully again: every later attempt on the same id, until a task
/// with that id is inserted again, fails with `NotFound`.
pub proof fn lemma_replay_resistance(
    before: Map<Seq<char>, Task>,
    id: Seq<char>,
    now: i64,
    ua_hash: Seq<char>,
    policy: IpPolicy,
    ip_hash: Seq<char>,
    nonce: Seq<char>,
)
    ensures
        verify_outcome(before.remove(id), id, now, ua_hash, policy, ip_hash, nonce) == Err::<Task, ConsumeError>(
            ConsumeError::NotFound,
        ),
{
}

/// A verify whose user-agent hash differs from the task's fails, and so
/// does one whose address hash differs when addresses are bound.
pub proof fn lemma_binding_enforced(
    m: Map<Seq<char>, Task>,
    id: Seq<char>,
    now: i64,
    ua_hash: Seq<char>,
    policy: IpPolicy,
    ip_hash: Seq<char>,
    nonce: Seq<char>,
)
    requires
        m.contains_key(id),
        m[id].ua_hash.0@ != ua_hash || (policy != IpPolicy::Disabled && m[id].ip_hash.0@ != ip_hash),
    ensures
        verify_outcome(m, id, now, ua_hash, policy, ip_hash, nonce) is Err,
{
}

/// Once a task has expired, a verify of it fails with `Expired`, whatever
/// the client and the nonce.
pub proof fn lemma_expired_task_fails(
    m: Map<Seq<char>, Task>,
    id: Seq<char>,
    now: i64,
    ua_hash: Seq<char>,
    policy: IpPolicy,
    ip_hash: Seq<char>,
    nonce: Seq<char>,
)
    requires
        m.contains_key(id),
        m[id].exp < now,
    ensures
        verify_outcome(m, id, now, ua_hash, policy, ip_hash, nonce) == Err::<Task, ConsumeError>(ConsumeError::Expired),
{
}


/// A verify request built by the encoder is read back as it was written:
/// the task id, the nonce and the redirect, for a non-empty task id and
/// nonce and fields that fit a TLV entry.
pub proof fn lemma_verify_request_round_trip(task_id: Seq<char>, nonce: Seq<char>, redirect: Seq<char>)
    requires
        task_id.len() > 0,
        nonce.len() > 0,
        encode_utf8(task_id).len() <= 65535,
        encode_utf8(nonce).len() <= 65535,
        encode_utf8(redirect).len() <= 65535,
    ensures
        parse_verify_outcome(
            masked(
                frame_of(
                    FRAME_TYPE_VERIFY_REQUEST,
                    verify_request_payload(encode_utf8(task_id), encode_utf8(nonce), encode_utf8(redirect)),
                ),
                xor_key(),
            ),
        ) == Ok::<(Seq<char>, Seq<char>, Seq<char>), FrameError>((task_id, nonce, redirect)),
{
    let p = verify_request_payload(encode_utf8(task_id), encode_utf8(nonce), encode_utf8(redirect));
    let f = frame_of(FRAME_TYPE_VERIFY_REQUEST, p);
    assert(xor_key().len() == 21);
    lemma_mask_involution(f, xor_key());
    lemma_frame_round_trip(FRAME_TYPE_VERIFY_REQUEST, p);
    lemma_verify_request_entries(encode_utf8(task_id), encode_utf8(nonce), encode_utf8(redirect));
    assert(masked(f, xor_key()).len() == f.len());
}

/// The admission cookie to set after a successful verify.
#[derive(Debug, Clone)]
pub struct AdmissionCookie {
    pub name: String,
    pub value: String,
    pub path: String,
    pub http_only: bool,
    /// Lifetime in seconds (`Max-Age`).
    pub max_age: i64,
    /// `Secure`, with `SameSite=None`.
    pub secure: bool,
}

/// The cookie lifetime in seconds for a lifetime in hours; `None` when it
/// does not fit.
pub fn cookie_lifetime(hours: i64) -> (r: Option<i64>)
    ensures
        i64::MIN <= hours * 3600 <= i64::MAX ==> (r matches Some(t) && t == hours * 3600),
        !(i64::MIN <= hours * 3600 <= i64::MAX) ==> r is None,
{
    if hours > i64::MAX / 3600 || hours < i64::MIN / 3600 {
        return None;
    }
    Some(hours * 3600)
}

/// The admission cookie carrying `token`: named `cowcat.waf.token`, for
/// path `/`, HTTP-only, living `max_age` seconds, and `Secure` with
/// `SameSite=None` when the secure flag is set.
pub fn admission_cookie(token: String, max_age: i64, secure: bool) -> (r: AdmissionCookie)
    ensures
        r.name@ == POW_COOKIE_NAME@,
        r.value@ == token@,
        r.path@ == "/"@,
        r.http_only,
        r.max_age == max_age,
        r.secure == secure,
{
    AdmissionCookie {
        name: String::from_str(POW_COOKIE_NAME),
        value: token,
        path: String::from_str("/"),
        http_only: true,
        max_age,
        secure,
    }
}

/// One verify attempt: the time and the client's user-agent hash, address
/// hash and nonce.
pub struct Attempt {
    pub now: i64,
    pub ua_hash: Seq<char>,
    pub ip_hash: Seq<char>,
    pub nonce: Seq<char>,
}

/// The outcomes of successive verify attempts on one task id, each made on
/// the store that the previous one left, with no insert in between.
pub open spec fn attempt_outcomes(m: Map<Seq<char>, Task>, id: Seq<char>, policy: IpPolicy, attempts: Seq<Attempt>) -> Seq<Result<Task, ConsumeError>>
    decreases attempts.len(),
{
    if attempts.len() == 0 {
        Seq::empty()
    } else {
        let a = attempts[0];
        seq![verify_outcome(m, id, a.now, a.ua_hash, policy, a.ip_hash, a.nonce)]
            + attempt_outcomes(m.remove(id), id, policy, attempts.subrange(1, attempts.len() as int))
    }
}

proof fn lemma_absent_attempts_fail(m: Map<Seq<char>, Task>, id: Seq<char>, policy: IpPolicy, attempts: Seq<Attempt>)
    requires
        !m.contains_key(id),
    ensures
        attempt_outcomes(m, id, policy, attempts).len() == attempts.len(),
        forall|j: int| 0 <= j < attempts.len() ==> #[trigger] attempt_outcomes(m, id, policy, attempts)[j]
            == Err::<Task, ConsumeError>(ConsumeError::NotFound),
    decreases attempts.len(),
{
    if attempts.len() > 0 {
        let rest = attempts.subrange(1, attempts.len() as int);
        assert(m.remove(id) =~= m);
        lemma_absent_attempts_fail(m.remove(id), id, policy, rest);
        let out = attempt_outcomes(m, id, policy, attempts);
        assert forall|j: int| 0 <= j < attempts.len() implies #[trigger] out[j] == Err::<Task, ConsumeError>(ConsumeError::NotFound) by {
            if j > 0 {
                assert(out[j] == attempt_outcomes(m.remove(id), id, policy, rest)[j - 1]);
            }
        }
    }
}

/// However many verify attempts name the same task, with whatever clients
/// and nonces, at most one succeeds: every attempt after the first fails
/// with `NotFound`, because the first one removed the task.
pub proof fn lemma_at_most_one_success(m: Map<Seq<char>, Task>, id: Seq<char>, policy: IpPolicy, attempts: Seq<Attempt>)
    ensures
        attempt_outcomes(m, id, policy, attempts).len() == attempts.len(),
        forall|j: int| 1 <= j < attempts.len() ==> #[trigger] attempt_outcomes(m, id, policy, attempts)[j]
            == Err::<Task, ConsumeError>(ConsumeError::NotFound),
        forall|i: int, j: int| 0 <= i < attempts.len() && 0 <= j < attempts.len()
            && (#[trigger] attempt_outcomes(m, id, policy, attempts)[i]) is Ok
            && (#[trigger] attempt_outcomes(m, id, policy, attempts)[j]) is Ok ==> i == j,
{
    if attempts.len() > 0 {
        let rest = attempts.subrange(1, attempts.len() as int);
        lemma_absent_attempts_fail(m.remove(id), id, policy, rest);
        let out = attempt_outcomes(m, id, policy, attempts);
        assert forall|j: int| 1 <= j < attempts.len() implies #[trigger] out[j] == Err::<Task, ConsumeError>(ConsumeError::NotFound) by {
            assert(out[j] == attempt_outcomes(m.remove(id), id, policy, rest)[j - 1]);
        }
    }
}

/// What `flate2` makes of `b` at its fast level: the gzip stream, or
/// nothing when the encoder reports an error.
pub uninterp spec fn gzip_outcome(b: Seq<u8>) -> Option<Seq<u8>>;

/// Relies on `flate2::write::GzEncoder` with `Compression::fast()`: the
/// outcome depends on the bytes alone (no timestamp or name is written).
#[verifier::external_body]
fn gzip_fast(b: &[u8]) -> (r: Option<Vec<u8>>)
    ensures
        match r {
            Some(v) => gzip_outcome(b@) == Some(v@),
            None => gzip_outcome(b@) is None,
        },
{
    let mut encoder = flate2::write::GzEncoder::new(Vec::new(), flate2::Compression::fast());
    match std::io::Write::write_all(&mut encoder, b) {
        Ok(()) => encoder.finish().ok(),
        Err(_) => None,
    }
}

/// What becomes of a challenge page's body.
#[derive(Debug, Clone)]
pub enum ChallengeBody {
    /// Sent as it is.
    Plain,
    /// Sent gzip-encoded, with `Content-Encoding: gzip`.
    Gzipped(Vec<u8>),
    /// Compression failed: sent empty.
    Emptied,
}

/// The challenge page is gzipped when the client accepts gzip and the
/// response is not already encoded; otherwise it passes unchanged. It is
/// emptied only when the encoder reports an error.
pub fn compress_challenge_body(body: &[u8], accepts_gzip: bool, already_encoded: bool) -> (r: ChallengeBody)
    ensures
        !accepts_gzip || already_encoded ==> r is Plain,
        accepts_gzip && !already_encoded ==> match gzip_outcome(body@) {
            Some(z) => r matches ChallengeBody::Gzipped(v) && v@ == z,
            None => r is Emptied,
        },
{
    if !accepts_gzip || already_encoded {
        return ChallengeBody::Plain;
    }
    match gzip_fast(body) {
        Some(v) => ChallengeBody::Gzipped(v),
        None => ChallengeBody::Emptied,
    }
}

} // verus!
