//! Digests, message authentication and randomness, and the hashes that bind
//! a challenge to a client.
use vstd::prelude::*;
use vstd::slice::slice_subrange;
use vstd::utf8::*;
use crate::text::{trim, trimmed};
use crate::encoding::{b64_padded, b64url_padded, hex_encode, hex_of};

verus! {

/// The SHA-256 digest of a byte string.
pub uninterp spec fn sha256_of(data: Seq<u8>) -> Seq<u8>;

/// The HMAC-SHA-256 tag of `msg` under `key`.
pub uninterp spec fn hmac_sha256_of(key: Seq<u8>, msg: Seq<u8>) -> Seq<u8>;

/// Relies on `ring::digest::digest` with `SHA256`: a 32-byte digest that
/// depends on the input alone.
#[verifier::external_body]
pub(crate) fn sha256(data: &[u8]) -> (r: Vec<u8>)
    ensures
        r@ == sha256_of(data@),
        r@.len() == 32,
{
    ring::digest::digest(&ring::digest::SHA256, data).as_ref().to_vec()
}

/// Relies on `ring::hmac::sign` with an `HMAC_SHA256` key: a 32-byte tag
/// that depends on the key and the message alone.
#[verifier::external_body]
pub(crate) fn hmac_sha256(key: &[u8], msg: &[u8]) -> (r: Vec<u8>)
    ensures
        r@ == hmac_sha256_of(key@, msg@),
        r@.len() == 32,
{
    let k = ring::hmac::Key::new(ring::hmac::HMAC_SHA256, key);
    ring::hmac::sign(&k, msg).as_ref().to_vec()
}

/// Relies on `ring::rand::SystemRandom::fill`: when it succeeds the buffer
/// holds `n` bytes; nothing is known of their values.
#[verifier::external_body]
fn random_bytes(n: usize) -> (r: Option<Vec<u8>>)
    ensures
        r matches Some(v) ==> v@.len() == n,
{
    let rng = ring::rand::SystemRandom::new();
    let mut buf = vec![0u8; n];
    match ring::rand::SecureRandom::fill(&rng, &mut buf) {
        Ok(()) => Some(buf),
        Err(_) => None,
    }
}

/// The system's random source failed.
#[derive(Debug, Clone, Copy, PartialEq, Eq, Structural)]
pub enum RandomError {
    Unavailable,
}

/// The hash that binds a value to a task or a token: the first eight bytes
/// of its SHA-256 digest, as padded URL-safe base64.
pub open spec fn short_hash(data: Seq<u8>) -> Seq<char> {
    b64_padded(sha256_of(data).subrange(0, 8), true)
}

/// The hash of a user agent.
pub fn compute_ua_hash(user_agent: &str) -> (r: String)
    ensures
        r@ == short_hash(encode_utf8(user_agent@)),
{
    let digest = sha256(user_agent.as_bytes());
    b64url_padded(slice_subrange(digest.as_slice(), 0, 8))
}

/// The hash of a client address; the empty text for an unknown address.
pub fn compute_ip_hash(ip: &str) -> (r: String)
    ensures
        ip@.len() == 0 ==> r@ == Seq::<char>::empty(),
        ip@.len() > 0 ==> r@ == short_hash(encode_utf8(ip@)),
{
    if ip.is_empty() {
        return String::new();
    }
    let digest = sha256(ip.as_bytes());
    b64url_padded(slice_subrange(digest.as_slice(), 0, 8))
}

/// A fresh task id: sixteen random bytes as lower-case hex.
pub fn generate_random_id() -> (r: Result<String, RandomError>)
    ensures
        r matches Ok(s) ==> exists|b: Seq<u8>| b.len() == 16 && s@ == hex_of(b),
{
    match random_bytes(16) {
        Some(b) => Ok(hex_encode(b.as_slice())),
        None => Err(RandomError::Unavailable),
    }
}

/// A fresh seed: thirty-two random bytes as padded URL-safe base64.
pub fn generate_random_seed() -> (r: Result<String, RandomError>)
    ensures
        r matches Ok(s) ==> exists|b: Seq<u8>| b.len() == 32 && s@ == b64_padded(b, true),
{
    match random_bytes(32) {
        Some(b) => Ok(b64url_padded(b.as_slice())),
        None => Err(RandomError::Unavailable),
    }
}


/// `value` followed by enough `0` to reach `min_len` bytes.
pub open spec fn padded_secret(value: Seq<char>, min_len: nat) -> Seq<char> {
    let len = encode_utf8(value).len();
    if len >= min_len {
        value
    } else {
        value + Seq::new((min_len - len) as nat, |_i: int| '0')
    }
}

/// Pads `value` with `0` up to `min_len` bytes.
pub fn pad_secret(value: &str, min_len: usize) -> (r: String)
    ensures
        r@ == padded_secret(value@, min_len as nat),
{
    let len = value.as_bytes().len();
    if len >= min_len {
        return value.to_owned();
    }
    let k = min_len - len;
    let mut out = value.to_owned();
    assert(value@ + Seq::new(0, |_i: int| '0') =~= value@);
    let mut i: usize = 0;
    while i < k
        invariant
            0 <= i <= k,
            k == min_len - encode_utf8(value@).len(),
            out@ == value@ + Seq::new(i as nat, |_i: int| '0'),
        decreases k - i,
    {
        proof {
            reveal_strlit("0");
        }
        out.append("0");
        assert("0"@ == seq!['0']);
        i = i + 1;
        assert(Seq::new(i as nat, |_i: int| '0') =~= Seq::new((i - 1) as nat, |_i: int| '0') + seq!['0']);
        assert(out@ =~= value@ + Seq::new(i as nat, |_i: int| '0'));
    }
    out
}

/// The server secret: the configured salt, trimmed, when there is one,
/// else sixteen random bytes as hex; either padded with `0` to 32 bytes.
pub fn build_server_secret(salt: &str) -> (r: Result<String, RandomError>)
    ensures
        trimmed(salt@).len() > 0 ==> (r matches Ok(s) && s@ == padded_secret(trimmed(salt@), 32)),
        trimmed(salt@).len() == 0 ==> (r matches Ok(s) ==> exists|b: Seq<u8>| b.len() == 16 && s@ == padded_secret(hex_of(b), 32)),
{
    let t = trim(salt);
    if t.unicode_len() > 0 {
        return Ok(pad_secret(t, 32));
    }
    match generate_random_id() {
        Ok(h) => Ok(pad_secret(h.as_str(), 32)),
        Err(e) => Err(e),
    }
}

} // verus!
