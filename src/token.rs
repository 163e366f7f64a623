//! The admission token: `base64url(payload) "." base64url(HMAC-SHA-256)`,
//! both halves unpadded, the tag taken over the encoded payload.
//!
//! The payload travels as JSON; this module seals and opens the encoded
//! bytes and checks the payload's fields once it has been read.
use vstd::prelude::*;
use vstd::utf8::*;
use crate::bytes_text::str_eq;
use crate::crypto::{hmac_sha256, hmac_sha256_of};
use crate::encoding::{
    b64_len, lemma_b64_len, b64_unpadded, b64url_unpadded, b64url_unpadded_decode, encode_matches, is_url_b64_char, lemma_b64_injective,
    lemma_url_b64_alphabet,
};
use crate::text::{index_of, is_white, lemma_index_of, lemma_index_of_absent, trim, trimmed, white_prefix_len, white_suffix_len};

verus! {

broadcast use {vstd::utf8::encode_utf8_decode_utf8};

/// The fields of an admission token.
#[derive(Debug, Clone)]
pub struct TokenPayload {
    pub v: String,
    pub exp: i64,
    pub bits: i32,
    pub scope: String,
    pub ua: String,
    pub ip: Option<String>,
    pub nonce: String,
}

/// The payload issued after a successful verify: version `v1`, expiring
/// `duration_seconds` after `now`, with no address when `ip_hash` is empty.
pub fn new_token_payload(
    bits: i32,
    scope: &str,
    ua_hash: &str,
    ip_hash: &str,
    nonce: &str,
    now: i64,
    duration_seconds: i64,
) -> (r: TokenPayload)
    requires
        i64::MIN <= now + duration_seconds <= i64::MAX,
    ensures
        r.v@ == "v1"@,
        r.exp == now + duration_seconds,
        r.bits == bits,
        r.scope@ == scope@,
        r.ua@ == ua_hash@,
        ip_hash@.len() == 0 ==> r.ip is None,
        ip_hash@.len() > 0 ==> (r.ip matches Some(ip) && ip@ == ip_hash@),
        r.nonce@ == nonce@,
{
    let ip = if ip_hash.unicode_len() == 0 { None } else { Some(ip_hash.to_owned()) };
    TokenPayload {
        v: String::from_str("v1"),
        exp: now + duration_seconds,
        bits,
        scope: scope.to_owned(),
        ua: ua_hash.to_owned(),
        ip,
        nonce: nonce.to_owned(),
    }
}

/// Whether a payload read from a token may admit: version `v1`, not
/// expired at `now`, and a nonce.
pub open spec fn payload_current(p: TokenPayload, now: i64) -> bool {
    p.v@ == "v1"@ && p.exp >= now && p.nonce@.len() > 0
}

/// Whether a payload read from a token may admit at `now`.
pub fn payload_is_current(p: &TokenPayload, now: i64) -> (r: bool)
    ensures
        r == payload_current(*p, now),
{
    str_eq(p.v.as_str(), "v1") && p.exp >= now && p.nonce.as_str().unicode_len() > 0
}

/// The signature half for a message: the HMAC-SHA-256 tag under the
/// secret, as unpadded URL-safe base64.
pub open spec fn signature_of(secret: Seq<char>, msg: Seq<u8>) -> Seq<char> {
    b64_unpadded(hmac_sha256_of(encode_utf8(secret), msg), true)
}

/// The token that carries `json` under `secret`.
pub open spec fn sealed(secret: Seq<char>, json: Seq<u8>) -> Seq<char> {
    b64_unpadded(json, true) + seq!['.'] + signature_of(secret, encode_utf8(b64_unpadded(json, true)))
}

/// Signs `message` with `secret`.
pub fn sign(secret: &str, message: &[u8]) -> (r: String)
    ensures
        r@ == signature_of(secret@, message@),
{
    let tag = hmac_sha256(secret.as_bytes(), message);
    b64url_unpadded(tag.as_slice())
}

/// Seals the encoded payload `payload_json` into a token.
pub fn seal_token(secret: &str, payload_json: &[u8]) -> (r: String)
    ensures
        r@ == sealed(secret@, payload_json@),
{
    let payload_b64 = b64url_unpadded(payload_json);
    let sig = sign(secret, payload_b64.as_str().as_bytes());
    let mut out = payload_b64;
    out.append(".");
    out.append(sig.as_str());
    proof {
        reveal_strlit(".");
    }
    out
}

/// The number of `c` at the start of `s`.
pub open spec fn run_prefix(s: Seq<char>, c: char) -> nat
    decreases s.len(),
{
    if s.len() > 0 && s[0] == c {
        1 + run_prefix(s.subrange(1, s.len() as int), c)
    } else {
        0
    }
}

/// The number of `c` at the end of `s`.
pub open spec fn run_suffix(s: Seq<char>, c: char) -> nat
    decreases s.len(),
{
    if s.len() > 0 && s.last() == c {
        1 + run_suffix(s.drop_last(), c)
    } else {
        0
    }
}

/// `s` without `c` at either end.
pub open spec fn strip_both(s: Seq<char>, c: char) -> Seq<char> {
    if run_prefix(s, c) == s.len() {
        Seq::empty()
    } else {
        s.subrange(run_prefix(s, c) as int, s.len() - run_suffix(s, c))
    }
}

/// `s` without `c` at its end.
pub open spec fn strip_end(s: Seq<char>, c: char) -> Seq<char> {
    s.subrange(0, s.len() - run_suffix(s, c))
}

/// The two halves of a token, after trimming whitespace and quotes and
/// splitting at the first `.`, each without trailing `=`; `None` when there
/// is no `.` or a half is empty before the `=` are dropped.
pub open spec fn token_halves(token: Seq<char>) -> Option<(Seq<char>, Seq<char>)> {
    let t = strip_both(trimmed(token), '"');
    let i = index_of(t, '.');
    if i >= t.len() {
        None
    } else if i == 0 || i + 1 == t.len() {
        None
    } else {
        Some((strip_end(t.subrange(0, i), '='), strip_end(t.subrange(i + 1, t.len() as int), '=')))
    }
}

proof fn lemma_run_prefix(s: Seq<char>, c: char, i: int)
    requires
        0 <= i <= s.len(),
        forall|j: int| 0 <= j < i ==> s[j] == c,
    ensures
        run_prefix(s, c) == i + run_prefix(s.subrange(i, s.len() as int), c),
    decreases i,
{
    if i > 0 {
        let t = s.subrange(1, s.len() as int);
        assert(t.subrange(i - 1, t.len() as int) == s.subrange(i, s.len() as int));
        lemma_run_prefix(t, c, i - 1);
    } else {
        assert(s.subrange(0, s.len() as int) == s);
    }
}

proof fn lemma_run_suffix(s: Seq<char>, c: char, k: int)
    requires
        0 <= k <= s.len(),
        forall|j: int| s.len() - k <= j < s.len() ==> s[j] == c,
    ensures
        run_suffix(s, c) == k + run_suffix(s.subrange(0, s.len() - k), c),
    decreases k,
{
    if k > 0 {
        let t = s.drop_last();
        assert(t.subrange(0, t.len() - (k - 1)) == s.subrange(0, s.len() - k));
        lemma_run_suffix(t, c, k - 1);
    } else {
        assert(s.subrange(0, s.len() as int) == s);
    }
}

/// `s` without `c` at either end.
fn strip_char_both(s: &str, c: char) -> (r: &str)
    ensures
        r@ == strip_both(s@, c),
{
    let n = s.unicode_len();
    let mut a: usize = 0;
    while a < n && s.get_char(a) == c
        invariant
            n == s@.len(),
            0 <= a <= n,
            forall|j: int| 0 <= j < a ==> s@[j] == c,
        decreases n - a,
    {
        a = a + 1;
    }
    proof {
        lemma_run_prefix(s@, c, a as int);
        if a < n {
            assert(run_prefix(s@.subrange(a as int, n as int), c) == 0);
        } else {
            assert(s@.subrange(a as int, n as int).len() == 0);
        }
    }
    if a == n {
        return s.substring_char(n, n);
    }
    let mut b: usize = n;
    while b > a && s.get_char(b - 1) == c
        invariant
            n == s@.len(),
            a < n,
            a <= b <= n,
            s@[a as int] != c,
            forall|j: int| b <= j < n ==> s@[j] == c,
        decreases b,
    {
        b = b - 1;
    }
    proof {
        lemma_run_suffix(s@, c, n - b);
        let t = s@.subrange(0, b as int);
        assert(t.len() > 0 && t.last() == s@[b - 1]);
    }
    s.substring_char(a, b)
}

/// `s` without `c` at its end.
pub fn strip_char_end(s: &str, c: char) -> (r: &str)
    ensures
        r@ == strip_end(s@, c),
{
    let n = s.unicode_len();
    let mut b: usize = n;
    while b > 0 && s.get_char(b - 1) == c
        invariant
            n == s@.len(),
            0 <= b <= n,
            forall|j: int| b <= j < n ==> s@[j] == c,
        decreases b,
    {
        b = b - 1;
    }
    proof {
        lemma_run_suffix(s@, c, n - b);
        let t = s@.subrange(0, b as int);
        if b > 0 {
            assert(t.last() == s@[b - 1]);
        }
    }
    s.substring_char(0, b)
}

/// Splits a token at its first `.`; `None` when there is none or a half is
/// empty.
pub fn split_token(token: &str) -> (r: Option<(&str, &str)>)
    ensures
        match r {
            Some((p, s)) => index_of(token@, '.') < token@.len() && index_of(token@, '.') > 0
                && index_of(token@, '.') + 1 < token@.len()
                && p@ == token@.subrange(0, index_of(token@, '.'))
                && s@ == token@.subrange(index_of(token@, '.') + 1, token@.len() as int),
            None => index_of(token@, '.') >= token@.len() || index_of(token@, '.') == 0
                || index_of(token@, '.') + 1 == token@.len(),
        },
{
    let n = token.unicode_len();
    let mut i: usize = 0;
    assert(token@.subrange(0, n as int) == token@);
    while i < n && token.get_char(i) != '.'
        invariant
            n == token@.len(),
            0 <= i <= n,
            index_of(token@, '.') == i + index_of(token@.subrange(i as int, n as int), '.'),
        decreases n - i,
    {
        let ghost rest = token@.subrange(i as int, n as int);
        assert(rest.subrange(1, rest.len() as int) == token@.subrange(i + 1, n as int));
        i = i + 1;
    }
    proof {
        let rest = token@.subrange(i as int, n as int);
        if i < n {
            assert(rest[0] == '.');
        }
    }
    if i == n || i == 0 || i + 1 == n {
        return None;
    }
    Some((token.substring_char(0, i), token.substring_char(i + 1, n)))
}

/// Opens a token: the encoded payload, when the signature half is the
/// payload half's signature and the payload half is canonical base64.
pub fn open_token(secret: &str, token: &str) -> (r: Option<Vec<u8>>)
    ensures
        match token_halves(token@) {
            None => r is None,
            Some((p, s)) => if s != signature_of(secret@, encode_utf8(p)) {
                r is None
            } else {
                (r matches Some(w) ==> encode_matches(w@, encode_utf8(p)))
                && (r is None ==> forall|v: Seq<u8>| !encode_matches(v, encode_utf8(p)))
            },
        },
{
    let t = strip_char_both(trim(token), '"');
    let (payload_raw, sig_raw) = match split_token(t) {
        Some(halves) => halves,
        None => return None,
    };
    let payload_b64 = strip_char_end(payload_raw, '=');
    let sig = strip_char_end(sig_raw, '=');
    let expected = sign(secret, payload_b64.as_bytes());
    if !str_eq(sig, expected.as_str()) {
        return None;
    }
    b64url_unpadded_decode(payload_b64.as_bytes())
}


proof fn lemma_b64_nonempty(b: Seq<u8>)
    requires
        b.len() > 0,
    ensures
        b64_unpadded(b, true).len() > 0,
{
    assert(b64_unpadded(b, true).len() >= 2);
}

/// A sealed token opens to the bytes it was sealed with: its halves are
/// the payload's base64 and the signature of that base64, so the signature
/// check passes, and the payload half is the encoding of those bytes and
/// of no others. Stated for a non-empty payload and a tag of
/// HMAC-SHA-256's length, as the sealing side produces.
pub proof fn lemma_token_round_trip(secret: Seq<char>, json: Seq<u8>)
    requires
        json.len() > 0,
        hmac_sha256_of(encode_utf8(secret), encode_utf8(b64_unpadded(json, true))).len() == 32,
    ensures
        token_halves(sealed(secret, json)) == Some(
            (b64_unpadded(json, true), signature_of(secret, encode_utf8(b64_unpadded(json, true)))),
        ),
        encode_matches(json, encode_utf8(b64_unpadded(json, true))),
        forall|w: Seq<u8>| encode_matches(w, encode_utf8(b64_unpadded(json, true))) ==> w == json,
{
    let b = b64_unpadded(json, true);
    let tag = hmac_sha256_of(encode_utf8(secret), encode_utf8(b));
    let sig = signature_of(secret, encode_utf8(b));
    let t = sealed(secret, json);
    lemma_b64_nonempty(json);
    lemma_b64_nonempty(tag);
    lemma_url_b64_alphabet(json);
    lemma_url_b64_alphabet(tag);
    assert(t == b + seq!['.'] + sig);
    let n = b.len() as int;
    assert(t[0] == b[0]);
    assert(is_url_b64_char(b[0]));
    assert(t.last() == sig.last());
    assert(is_url_b64_char(sig[sig.len() - 1]));
    assert(white_prefix_len(t) == 0);
    assert(white_suffix_len(t) == 0);
    assert(trimmed(t) == t);
    assert(run_prefix(t, '"') == 0);
    assert(run_suffix(t, '"') == 0);
    assert(strip_both(t, '"') == t);
    assert(t[n] == '.');
    assert forall|j: int| 0 <= j < n implies t[j] != '.' by {
        assert(t[j] == b[j]);
        assert(is_url_b64_char(b[j]));
    }
    lemma_index_of(t, '.', n);
    assert(t.subrange(0, n) == b);
    assert(t.subrange(n + 1, t.len() as int) == sig);
    assert(b.last() == b[b.len() - 1]);
    assert(is_url_b64_char(b[b.len() - 1]));
    assert(run_suffix(b, '=') == 0);
    assert(run_suffix(sig, '=') == 0);
    assert(strip_end(b, '=') == b);
    assert(strip_end(sig, '=') == sig);
    assert forall|w: Seq<u8>| encode_matches(w, encode_utf8(b)) implies w == json by {
        assert(decode_utf8(encode_utf8(b64_unpadded(w, true))) == decode_utf8(encode_utf8(b)));
        lemma_b64_injective(w, json, true);
    }
}


/// `t` after trimming whitespace and then quotes from both ends.
spec fn cleaned(t: Seq<char>) -> Seq<char> {
    strip_both(trimmed(t), '"')
}

proof fn lemma_cleaned_keeps(t: Seq<char>)
    requires
        t.len() > 0,
        !is_white(t[0]) && t[0] != '"',
        !is_white(t.last()) && t.last() != '"',
    ensures
        cleaned(t) == t,
{
    assert(white_prefix_len(t) == 0);
    assert(white_suffix_len(t) == 0);
    assert(t.subrange(0, t.len() as int) == t);
    assert(trimmed(t) == t);
    assert(run_prefix(t, '"') == 0);
    assert(run_suffix(t, '"') == 0);
}

proof fn lemma_cleaned_drops_first(t: Seq<char>)
    requires
        t.len() >= 2,
        is_white(t[0]) || t[0] == '"',
        is_url_b64_char(t[1]),
        is_url_b64_char(t.last()),
    ensures
        cleaned(t) == t.subrange(1, t.len() as int),
{
    let r = t.subrange(1, t.len() as int);
    assert(r[0] == t[1]);
    assert(r.last() == t.last());
    assert(white_prefix_len(r) == 0);
    assert(white_suffix_len(t) == 0);
    if is_white(t[0]) {
        assert(white_prefix_len(t) == 1);
        assert(trimmed(t) == r);
        assert(run_prefix(r, '"') == 0);
        assert(run_suffix(r, '"') == 0);
        assert(r.subrange(0, r.len() as int) == r);
    } else {
        assert(white_prefix_len(t) == 0);
        assert(t.subrange(0, t.len() as int) == t);
        assert(trimmed(t) == t);
        assert(run_prefix(r, '"') == 0);
        assert(run_prefix(t, '"') == 1);
        assert(run_suffix(t, '"') == 0);
    }
}

proof fn lemma_cleaned_drops_last(t: Seq<char>)
    requires
        t.len() >= 2,
        is_white(t.last()) || t.last() == '"',
        is_url_b64_char(t[0]),
        is_url_b64_char(t[t.len() - 2]),
    ensures
        cleaned(t) == t.subrange(0, t.len() - 1),
{
    let r = t.subrange(0, t.len() - 1);
    assert(r == t.drop_last());
    assert(r[0] == t[0]);
    assert(r.last() == t[t.len() - 2]);
    assert(white_prefix_len(t) == 0);
    assert(white_suffix_len(r) == 0);
    if is_white(t.last()) {
        assert(white_suffix_len(t) == 1);
        assert(trimmed(t) == r);
        assert(run_prefix(r, '"') == 0);
        assert(run_suffix(r, '"') == 0);
        assert(r.subrange(0, r.len() as int) == r);
    } else {
        assert(white_suffix_len(t) == 0);
        assert(t.subrange(0, t.len() as int) == t);
        assert(trimmed(t) == t);
        assert(run_prefix(t, '"') == 0);
        assert(run_suffix(r, '"') == 0);
        assert(run_suffix(t, '"') == 1);
    }
}

proof fn lemma_strip_end_keeps(s: Seq<char>)
    requires
        s.len() > 0,
        s.last() != '=',
    ensures
        strip_end(s, '=') == s,
{
    assert(run_suffix(s, '=') == 0);
    assert(s.subrange(0, s.len() as int) == s);
}

proof fn lemma_strip_end_one(s: Seq<char>)
    requires
        s.len() >= 2,
        s.last() == '=',
        s[s.len() - 2] != '=',
    ensures
        strip_end(s, '=') == s.subrange(0, s.len() - 1),
{
    let r = s.drop_last();
    assert(r.last() == s[s.len() - 2]);
    assert(run_suffix(r, '=') == 0);
    assert(run_suffix(s, '=') == 1);
}

proof fn lemma_same_signature_same_tag(secret: Seq<char>, b: Seq<char>, p: Seq<char>)
    ensures
        signature_of(secret, encode_utf8(p)) == signature_of(secret, encode_utf8(b)) ==> hmac_sha256_of(
            encode_utf8(secret),
            encode_utf8(p),
        ) == hmac_sha256_of(encode_utf8(secret), encode_utf8(b)),
{
    let key = encode_utf8(secret);
    if signature_of(secret, encode_utf8(p)) == signature_of(secret, encode_utf8(b)) {
        lemma_b64_injective(hmac_sha256_of(key, encode_utf8(p)), hmac_sha256_of(key, encode_utf8(b)), true);
    }
}

/// Changing any one character of a sealed token keeps it from opening: the
/// token then has no halves, or its signature half is not the signature of
/// its payload half. For a change in the separator or the signature half
/// this holds outright. A change in the payload half is caught by the
/// tag: it opens only if the changed payload text, which then differs from
/// the sealed one, has the same HMAC tag as the sealed one.
#[verifier::rlimit(100)]
pub proof fn lemma_tampered_token_rejected(secret: Seq<char>, json: Seq<u8>, i: int, c: char)
    requires
        json.len() > 0,
        hmac_sha256_of(encode_utf8(secret), encode_utf8(b64_unpadded(json, true))).len() == 32,
        0 <= i < sealed(secret, json).len(),
        c != sealed(secret, json)[i],
    ensures
        i >= b64_unpadded(json, true).len() ==> match token_halves(sealed(secret, json).update(i, c)) {
            None => true,
            Some((p, s)) => s != signature_of(secret, encode_utf8(p)),
        },
        i < b64_unpadded(json, true).len() ==> match token_halves(sealed(secret, json).update(i, c)) {
            None => true,
            Some((p, s)) => s != signature_of(secret, encode_utf8(p)) || (p != b64_unpadded(json, true)
                && hmac_sha256_of(encode_utf8(secret), encode_utf8(p)) == hmac_sha256_of(
                encode_utf8(secret),
                encode_utf8(b64_unpadded(json, true)),
            )),
        },
{
    let b = b64_unpadded(json, true);
    let tag = hmac_sha256_of(encode_utf8(secret), encode_utf8(b));
    let sig = signature_of(secret, encode_utf8(b));
    let t = sealed(secret, json);
    let u = t.update(i, c);
    lemma_b64_len(json, true);
    lemma_b64_len(tag, true);
    assert(b64_len(32) == 43) by {
        reveal_with_fuel(b64_len, 12);
    }
    assert(b.len() >= 2);
    lemma_url_b64_alphabet(json);
    lemma_url_b64_alphabet(tag);
    let n = b.len() as int;
    let m = sig.len() as int;
    assert(m == 43);
    assert(t == b + seq!['.'] + sig);
    assert(t.len() == n + 1 + m);
    assert forall|j: int| 0 <= j < n implies t[j] == b[j] && is_url_b64_char(t[j]) by {}
    assert forall|j: int| 0 <= j < m implies t[n + 1 + j] == sig[j] && is_url_b64_char(t[n + 1 + j]) by {}
    assert(t[n] == '.');
    assert(u.len() == t.len());
    if i < n {
        // The payload half changed.
        if c == '.' {
            if i == 0 {
                lemma_cleaned_keeps(u);
                lemma_index_of(u, '.', 0);
            } else {
                assert(u[0] == t[0]);
                assert(u.last() == t.last());
                lemma_cleaned_keeps(u);
                assert forall|j: int| 0 <= j < i implies u[j] != '.' by {}
                lemma_index_of(u, '.', i);
                let sr = u.subrange(i + 1, u.len() as int);
                assert(sr.last() == sig.last());
                lemma_strip_end_keeps(sr);
                assert(sr[n - i - 1] == '.');
                let p = strip_end(u.subrange(0, i), '=');
                let sg = signature_of(secret, encode_utf8(p));
                lemma_url_b64_alphabet(hmac_sha256_of(encode_utf8(secret), encode_utf8(p)));
                if sr == sg {
                    assert(is_url_b64_char(sg[n - i - 1]));
                }
            }
        } else {
            let first: Seq<char>;
            if i == 0 && (is_white(c) || c == '"') {
                assert(u[1] == b[1]);
                assert(u.last() == sig.last());
                lemma_cleaned_drops_first(u);
                first = b.subrange(1, n);
                let v = u.subrange(1, u.len() as int);
                assert(v == first + seq!['.'] + sig);
                assert forall|j: int| 0 <= j < n - 1 implies v[j] != '.' by {
                    assert(v[j] == b[j + 1]);
                }
                lemma_index_of(v, '.', n - 1);
                assert(v.subrange(0, n - 1) == first);
                assert(v.subrange(n, v.len() as int) == sig);
                assert(first.last() == b.last());
                lemma_strip_end_keeps(first);
                lemma_strip_end_keeps(sig);
                assert(first.len() != b.len());
                lemma_same_signature_same_tag(secret, b, first);
            } else {
                if i == 0 {
                    assert(u[0] == c);
                } else {
                    assert(u[0] == t[0]);
                }
                assert(u.last() == t.last());
                lemma_cleaned_keeps(u);
                let bu = b.update(i, c);
                assert(u == bu + seq!['.'] + sig);
                assert forall|j: int| 0 <= j < n implies u[j] != '.' by {
                    if j != i {
                        assert(u[j] == b[j]);
                    }
                }
                lemma_index_of(u, '.', n);
                assert(u.subrange(0, n) == bu);
                assert(u.subrange(n + 1, u.len() as int) == sig);
                lemma_strip_end_keeps(sig);
                let p = strip_end(bu, '=');
                if i == n - 1 && c == '=' {
                    assert(bu[n - 2] == b[n - 2]);
                    lemma_strip_end_one(bu);
                    assert(p.len() != b.len());
                } else {
                    if i == n - 1 {
                        assert(bu.last() == c);
                    } else {
                        assert(bu.last() == b.last());
                    }
                    lemma_strip_end_keeps(bu);
                    assert(p[i] != b[i]);
                }
                assert(p != b);
                lemma_same_signature_same_tag(secret, b, p);
            }
        }
    } else if i == n {
        // The separator changed.
        assert(u[0] == t[0]);
        assert(u.last() == t.last());
        lemma_cleaned_keeps(u);
        assert forall|j: int| 0 <= j < u.len() implies u[j] != '.' by {
            if j < n {
                assert(u[j] == b[j]);
            } else if j > n {
                assert(u[j] == sig[j - n - 1]);
            }
        }
        lemma_index_of_absent(u, '.');
    } else {
        // The signature half changed.
        let k = i - n - 1;
        let su = sig.update(k, c);
        assert(u == b + seq!['.'] + su);
        if i == u.len() - 1 && (is_white(c) || c == '"') {
            assert(u[u.len() - 2] == sig[m - 2]);
            lemma_cleaned_drops_last(u);
            let v = u.subrange(0, u.len() - 1);
            assert(v == b + seq!['.'] + sig.subrange(0, m - 1));
            assert forall|j: int| 0 <= j < n implies v[j] != '.' by {
                assert(v[j] == b[j]);
            }
            lemma_index_of(v, '.', n);
            assert(v.subrange(0, n) == b);
            let sr = v.subrange(n + 1, v.len() as int);
            assert(sr == sig.subrange(0, m - 1));
            assert(sr.last() == sig[m - 2]);
            lemma_strip_end_keeps(sr);
            lemma_strip_end_keeps(b);
        } else {
            assert(u[0] == t[0]);
            if i == u.len() - 1 {
                assert(u.last() == c);
            } else {
                assert(u.last() == t.last());
            }
            lemma_cleaned_keeps(u);
            assert forall|j: int| 0 <= j < n implies u[j] != '.' by {
                assert(u[j] == b[j]);
            }
            lemma_index_of(u, '.', n);
            assert(u.subrange(0, n) == b);
            assert(u.subrange(n + 1, u.len() as int) == su);
            lemma_strip_end_keeps(b);
            if k == m - 1 && c == '=' {
                assert(su[m - 2] == sig[m - 2]);
                lemma_strip_end_one(su);
            } else {
                if k == m - 1 {
                    assert(su.last() == c);
                } else {
                    assert(su.last() == sig.last());
                }
                lemma_strip_end_keeps(su);
                assert(su[k] != sig[k]);
            }
        }
    }
}

} // verus!
