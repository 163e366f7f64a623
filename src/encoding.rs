//! Base64 and hex text of byte strings.
use base64::Engine;
use vstd::prelude::*;
use vstd::utf8::*;

verus! {

/// The base64 digit for the six-bit value `v`; the URL-safe alphabet uses
/// `-` and `_` where the standard one uses `+` and `/`.
pub open spec fn b64_digit(v: nat, url: bool) -> char {
    if v < 26 {
        (65 + v) as char
    } else if v < 52 {
        (97 + (v - 26)) as char
    } else if v < 62 {
        (48 + (v - 52)) as char
    } else if v == 62 {
        if url { '-' } else { '+' }
    } else {
        if url { '_' } else { '/' }
    }
}

/// Base64 of `b` without padding: four digits for each three bytes, and
/// two or three digits for a last group of one or two bytes.
pub open spec fn b64_unpadded(b: Seq<u8>, url: bool) -> Seq<char>
    decreases b.len(),
{
    if b.len() == 0 {
        Seq::empty()
    } else if b.len() == 1 {
        seq![b64_digit(b[0] as nat / 4, url), b64_digit((b[0] as nat % 4) * 16, url)]
    } else if b.len() == 2 {
        seq![
            b64_digit(b[0] as nat / 4, url),
            b64_digit((b[0] as nat % 4) * 16 + b[1] as nat / 16, url),
            b64_digit((b[1] as nat % 16) * 4, url),
        ]
    } else {
        seq![
            b64_digit(b[0] as nat / 4, url),
            b64_digit((b[0] as nat % 4) * 16 + b[1] as nat / 16, url),
            b64_digit((b[1] as nat % 16) * 4 + b[2] as nat / 64, url),
            b64_digit(b[2] as nat % 64, url),
        ] + b64_unpadded(b.subrange(3, b.len() as int), url)
    }
}

/// Base64 of `b` with `=` padding to a multiple of four digits.
pub open spec fn b64_padded(b: Seq<u8>, url: bool) -> Seq<char> {
    b64_unpadded(b, url) + if b.len() % 3 == 1 {
        seq!['=', '=']
    } else if b.len() % 3 == 2 {
        seq!['=']
    } else {
        Seq::empty()
    }
}

/// Whether `c` is a digit of the URL-safe base64 alphabet.
pub open spec fn is_url_b64_char(c: char) -> bool {
    ('A' <= c <= 'Z') || ('a' <= c <= 'z') || ('0' <= c <= '9') || c == '-' || c == '_'
}

proof fn lemma_digit_in_alphabet(v: nat)
    requires
        v < 64,
    ensures
        is_url_b64_char(b64_digit(v, true)),
        (b64_digit(v, true) as u32) < 128,
{
}

/// Unpadded URL-safe base64 uses only the alphabet's digits: no `=`, no
/// `.`, no whitespace, no quote, and only ASCII.
pub proof fn lemma_url_b64_alphabet(b: Seq<u8>)
    ensures
        forall|i: int| 0 <= i < b64_unpadded(b, true).len() ==> is_url_b64_char(#[trigger] b64_unpadded(b, true)[i]),
    decreases b.len(),
{
    let s = b64_unpadded(b, true);
    if b.len() >= 1 {
        lemma_digit_in_alphabet(b[0] as nat / 4);
        lemma_digit_in_alphabet((b[0] as nat % 4) * 16);
    }
    if b.len() >= 2 {
        lemma_digit_in_alphabet((b[0] as nat % 4) * 16 + b[1] as nat / 16);
        lemma_digit_in_alphabet((b[1] as nat % 16) * 4);
    }
    if b.len() >= 3 {
        let rest = b.subrange(3, b.len() as int);
        lemma_url_b64_alphabet(rest);
        lemma_digit_in_alphabet((b[1] as nat % 16) * 4 + b[2] as nat / 64);
        lemma_digit_in_alphabet(b[2] as nat % 64);
        let h = seq![
            b64_digit(b[0] as nat / 4, true),
            b64_digit((b[0] as nat % 4) * 16 + b[1] as nat / 16, true),
            b64_digit((b[1] as nat % 16) * 4 + b[2] as nat / 64, true),
            b64_digit(b[2] as nat % 64, true),
        ];
        let t = b64_unpadded(rest, true);
        assert(s == h + t);
        assert forall|i: int| 0 <= i < s.len() implies is_url_b64_char(#[trigger] s[i]) by {
            if i >= 4 {
                assert(s[i] == t[i - 4]);
            }
        }
    }
}

/// The lower-case hex digit for `d < 16`.
pub open spec fn hex_digit(d: nat) -> char {
    if d < 10 {
        (48 + d) as char
    } else {
        (97 + (d - 10)) as char
    }
}

/// Lower-case hex of `b`, two digits per byte.
pub open spec fn hex_of(b: Seq<u8>) -> Seq<char>
    decreases b.len(),
{
    if b.len() == 0 {
        Seq::empty()
    } else {
        hex_of(b.drop_last()) + seq![hex_digit(b.last() as nat / 16), hex_digit(b.last() as nat % 16)]
    }
}

/// Relies on `base64::engine::general_purpose::URL_SAFE_NO_PAD.encode`.
#[verifier::external_body]
pub(crate) fn b64url_unpadded(b: &[u8]) -> (r: String)
    ensures
        r@ == b64_unpadded(b@, true),
{
    base64::engine::general_purpose::URL_SAFE_NO_PAD.encode(b)
}

/// Relies on `base64::engine::general_purpose::URL_SAFE_NO_PAD.decode`:
/// it accepts exactly the canonical unpadded encodings (no padding, no
/// stray trailing bits) and returns the bytes they encode.
#[verifier::external_body]
pub(crate) fn b64url_unpadded_decode(s: &[u8]) -> (r: Option<Vec<u8>>)
    ensures
        r matches Some(w) ==> encode_matches(w@, s@),
        r is None ==> forall|v: Seq<u8>| !encode_matches(v, s@),
{
    base64::engine::general_purpose::URL_SAFE_NO_PAD.decode(s).ok()
}

/// Whether `s` is the bytes of the unpadded URL-safe base64 text of `v`.
pub open spec fn encode_matches(v: Seq<u8>, s: Seq<u8>) -> bool {
    s == encode_utf8(b64_unpadded(v, true))
}

/// Relies on `base64::engine::general_purpose::URL_SAFE.encode`.
#[verifier::external_body]
pub(crate) fn b64url_padded(b: &[u8]) -> (r: String)
    ensures
        r@ == b64_padded(b@, true),
{
    base64::engine::general_purpose::URL_SAFE.encode(b)
}

/// Relies on `base64::engine::general_purpose::STANDARD.encode`.
#[verifier::external_body]
pub(crate) fn b64_standard(b: &[u8]) -> (r: String)
    ensures
        r@ == b64_padded(b@, false),
{
    base64::engine::general_purpose::STANDARD.encode(b)
}

/// Relies on `hex::encode`: two lower-case digits per byte.
#[verifier::external_body]
pub(crate) fn hex_encode(b: &[u8]) -> (r: String)
    ensures
        r@ == hex_of(b@),
{
    hex::encode(b)
}


proof fn lemma_digit_injective(x: nat, y: nat, url: bool)
    requires
        x < 64,
        y < 64,
        b64_digit(x, url) == b64_digit(y, url),
    ensures
        x == y,
{
    let cx = b64_digit(x, url);
    let cy = b64_digit(y, url);
    assert(cx as u32 == cy as u32);
    if x < 26 {
        assert(cx as u32 == 65 + x);
    } else if x < 52 {
        assert(cx as u32 == 97 + (x - 26));
    } else if x < 62 {
        assert(cx as u32 == 48 + (x - 52));
    }
    if y < 26 {
        assert(cy as u32 == 65 + y);
    } else if y < 52 {
        assert(cy as u32 == 97 + (y - 26));
    } else if y < 62 {
        assert(cy as u32 == 48 + (y - 52));
    }
}


/// The length of the unpadded base64 of `n` bytes.
pub open spec fn b64_len(n: nat) -> nat
    decreases n,
{
    if n == 0 {
        0
    } else if n == 1 {
        2
    } else if n == 2 {
        3
    } else {
        4 + b64_len((n - 3) as nat)
    }
}

/// The length of unpadded base64 depends on the input's length alone.
pub proof fn lemma_b64_len(b: Seq<u8>, url: bool)
    ensures
        b64_unpadded(b, url).len() == b64_len(b.len()),
    decreases b.len(),
{
    if b.len() >= 3 {
        lemma_b64_len(b.subrange(3, b.len() as int), url);
    }
}

proof fn lemma_b64_len_injective(n: nat, m: nat)
    requires
        b64_len(n) == b64_len(m),
    ensures
        n == m,
    decreases n,
{
    if n >= 3 && m >= 3 {
        lemma_b64_len_injective((n - 3) as nat, (m - 3) as nat);
    }
}

proof fn lemma_split16(x: nat, y: nat, x2: nat, y2: nat, k: nat)
    requires
        y < k,
        y2 < k,
        x * k + y == x2 * k + y2,
        k > 0,
    ensures
        x == x2,
        y == y2,
{
    if x < x2 {
        assert(x * k + y < x2 * k) by (nonlinear_arith)
            requires x < x2, y < k, k > 0;
    } else if x > x2 {
        assert(x2 * k + y2 < x * k) by (nonlinear_arith)
            requires x2 < x, y2 < k, k > 0;
    }
}

proof fn lemma_group_bytes(a0: nat, a1: nat, a2: nat, b0: nat, b1: nat, b2: nat)
    requires
        a0 < 256,
        a1 < 256,
        a2 < 256,
        b0 < 256,
        b1 < 256,
        b2 < 256,
        a0 / 4 == b0 / 4,
        (a0 % 4) * 16 + a1 / 16 == (b0 % 4) * 16 + b1 / 16,
        (a1 % 16) * 4 + a2 / 64 == (b1 % 16) * 4 + b2 / 64,
        a2 % 64 == b2 % 64,
    ensures
        a0 == b0,
        a1 == b1,
        a2 == b2,
{
    lemma_split16(a0 % 4, a1 / 16, b0 % 4, b1 / 16, 16);
    lemma_split16(a1 % 16, a2 / 64, b1 % 16, b2 / 64, 4);
}

/// Different byte strings have different unpadded base64 texts.
pub proof fn lemma_b64_injective(a: Seq<u8>, b: Seq<u8>, url: bool)
    requires
        b64_unpadded(a, url) == b64_unpadded(b, url),
    ensures
        a == b,
    decreases a.len(),
{
    lemma_b64_len(a, url);
    lemma_b64_len(b, url);
    lemma_b64_len_injective(a.len(), b.len());
    let s = b64_unpadded(a, url);
    if a.len() == 0 {
        assert(a == b);
    } else if a.len() == 1 {
        lemma_digit_injective(a[0] as nat / 4, b[0] as nat / 4, url);
        assert(s[1] == b64_digit((a[0] as nat % 4) * 16, url));
        lemma_digit_injective((a[0] as nat % 4) * 16, (b[0] as nat % 4) * 16, url);
        lemma_group_bytes(a[0] as nat, 0, 0, b[0] as nat, 0, 0);
        assert(a == b);
    } else if a.len() == 2 {
        lemma_digit_injective(a[0] as nat / 4, b[0] as nat / 4, url);
        lemma_digit_injective((a[0] as nat % 4) * 16 + a[1] as nat / 16, (b[0] as nat % 4) * 16 + b[1] as nat / 16, url);
        lemma_digit_injective((a[1] as nat % 16) * 4, (b[1] as nat % 16) * 4, url);
        lemma_group_bytes(a[0] as nat, a[1] as nat, 0, b[0] as nat, b[1] as nat, 0);
        assert(a == b);
    } else {
        let ha = seq![
            b64_digit(a[0] as nat / 4, url),
            b64_digit((a[0] as nat % 4) * 16 + a[1] as nat / 16, url),
            b64_digit((a[1] as nat % 16) * 4 + a[2] as nat / 64, url),
            b64_digit(a[2] as nat % 64, url),
        ];
        let hb = seq![
            b64_digit(b[0] as nat / 4, url),
            b64_digit((b[0] as nat % 4) * 16 + b[1] as nat / 16, url),
            b64_digit((b[1] as nat % 16) * 4 + b[2] as nat / 64, url),
            b64_digit(b[2] as nat % 64, url),
        ];
        assert(s == ha + b64_unpadded(a.subrange(3, a.len() as int), url));
        assert(s == hb + b64_unpadded(b.subrange(3, b.len() as int), url));
        assert(s[0] == ha[0] && s[0] == hb[0]);
        assert(s[1] == ha[1] && s[1] == hb[1]);
        assert(s[2] == ha[2] && s[2] == hb[2]);
        assert(s[3] == ha[3] && s[3] == hb[3]);
        lemma_digit_injective(a[0] as nat / 4, b[0] as nat / 4, url);
        lemma_digit_injective((a[0] as nat % 4) * 16 + a[1] as nat / 16, (b[0] as nat % 4) * 16 + b[1] as nat / 16, url);
        lemma_digit_injective((a[1] as nat % 16) * 4 + a[2] as nat / 64, (b[1] as nat % 16) * 4 + b[2] as nat / 64, url);
        lemma_digit_injective(a[2] as nat % 64, b[2] as nat % 64, url);
        lemma_group_bytes(a[0] as nat, a[1] as nat, a[2] as nat, b[0] as nat, b[1] as nat, b[2] as nat);
        let ra = a.subrange(3, a.len() as int);
        let rb = b.subrange(3, b.len() as int);
        let ta = b64_unpadded(ra, url);
        let tb = b64_unpadded(rb, url);
        assert(ta == s.subrange(4, s.len() as int));
        assert(tb == b64_unpadded(b, url).subrange(4, s.len() as int));
        lemma_b64_injective(ra, rb, url);
        assert(a == a.subrange(0, 3) + ra);
        assert(b == b.subrange(0, 3) + rb);
        assert(a.subrange(0, 3) == b.subrange(0, 3));
    }
}

} // verus!
