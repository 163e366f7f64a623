//! The binary wire frame of the challenge protocol and its TLV payload.
//!
//! A frame is `'C' 'W' | version | type | length (u32, big-endian) | payload`,
//! and a payload is a sequence of `tag | length (u16, big-endian) | value`.
use vstd::prelude::*;
use vstd::utf8::*;
use vstd::slice::{slice_subrange, slice_to_vec};
use vstd::string::*;
use crate::task_store::Task;
use crate::bytes_text::{lossy_text, push_all, text_from_bytes};

verus! {

broadcast use {vstd::utf8::encode_utf8_valid_utf8, vstd::utf8::encode_utf8_decode_utf8};

pub const FRAME_MAGIC0: u8 = 67;
pub const FRAME_MAGIC1: u8 = 87;
pub const FRAME_VERSION: u8 = 1;

pub const FRAME_TYPE_TASK_REQUEST: u8 = 1;
pub const FRAME_TYPE_TASK_RESPONSE: u8 = 2;
pub const FRAME_TYPE_VERIFY_REQUEST: u8 = 3;
pub const FRAME_TYPE_VERIFY_RESPONSE: u8 = 4;
pub const FRAME_TYPE_ERROR: u8 = 5;

pub const TLV_REDIRECT: u8 = 0x01;
pub const TLV_TASK_ID: u8 = 0x02;
pub const TLV_SEED: u8 = 0x03;
pub const TLV_EXP: u8 = 0x04;
pub const TLV_BITS: u8 = 0x05;
pub const TLV_SCOPE: u8 = 0x06;
pub const TLV_UA_HASH: u8 = 0x07;
pub const TLV_IP_HASH: u8 = 0x08;
pub const TLV_WORKERS: u8 = 0x09;
pub const TLV_NONCE: u8 = 0x0a;
pub const TLV_WORKER_TYPE: u8 = 0x0b;
pub const TLV_ERROR: u8 = 0x0f;

/// Why a frame or a payload was refused.
#[derive(Debug, Clone, Copy, PartialEq, Eq, Structural)]
pub enum FrameError {
    TooShort,
    BadMagic,
    UnsupportedVersion,
    LengthMismatch,
    TlvHeaderTruncated,
    TlvValueOverrun,
    MissingField,
    WrongFrameType,
}

#[derive(Debug, Clone)]
pub struct BinaryTaskRequest {
    pub redirect: String,
}

#[derive(Debug, Clone)]
pub struct BinaryTaskResponse {
    pub task_id: String,
    pub seed: String,
    pub bits: i32,
    pub exp: i64,
    pub scope: String,
    pub ua_hash: String,
    pub ip_hash: String,
    pub workers: i32,
    pub worker_type: String,
}

#[derive(Debug, Clone)]
pub struct BinaryVerifyRequest {
    pub task_id: String,
    pub nonce: String,
    pub redirect: String,
}

#[derive(Debug, Clone)]
pub struct BinaryVerifyResponse {
    pub redirect: String,
}

/// One TLV entry of a payload, in the order it came.
#[derive(Debug, Clone)]
pub struct TlvField {
    pub tag: u8,
    pub value: Vec<u8>,
}

/// Two bytes, big-endian.
pub open spec fn be16(n: nat) -> Seq<u8> {
    seq![(n / 256) as u8, (n % 256) as u8]
}

/// Four bytes, big-endian.
pub open spec fn be32(n: nat) -> Seq<u8> {
    seq![(n / 16777216) as u8, ((n / 65536) % 256) as u8, ((n / 256) % 256) as u8, (n % 256) as u8]
}

/// Eight bytes, big-endian.
pub open spec fn be64(n: nat) -> Seq<u8> {
    be32(n / 4294967296) + be32(n % 4294967296)
}

/// The number that big-endian bytes stand for.
pub open spec fn be_value(b: Seq<u8>) -> nat
    decreases b.len(),
{
    if b.len() == 0 {
        0
    } else {
        be_value(b.drop_last()) * 256 + b.last() as nat
    }
}

/// The frame that carries `payload` as a frame of type `t`.
pub open spec fn frame_of(t: u8, payload: Seq<u8>) -> Seq<u8> {
    seq![FRAME_MAGIC0, FRAME_MAGIC1, FRAME_VERSION, t] + be32(payload.len()) + payload
}

/// What decoding makes of `data`: the frame type and the payload, or why not.
pub open spec fn frame_parse(data: Seq<u8>) -> Result<(u8, Seq<u8>), FrameError> {
    if data.len() < 8 {
        Err(FrameError::TooShort)
    } else if data[0] != FRAME_MAGIC0 || data[1] != FRAME_MAGIC1 {
        Err(FrameError::BadMagic)
    } else if data[2] != FRAME_VERSION {
        Err(FrameError::UnsupportedVersion)
    } else if be_value(data.subrange(4, 8)) != data.len() - 8 {
        Err(FrameError::LengthMismatch)
    } else {
        Ok((data[3], data.subrange(8, data.len() as int)))
    }
}

/// One TLV entry; a value longer than a u16 can count is left out.
pub open spec fn tlv_of(t: u8, v: Seq<u8>) -> Seq<u8> {
    if v.len() <= 65535 {
        seq![t] + be16(v.len()) + v
    } else {
        Seq::empty()
    }
}

/// The entries of a payload, in order, or why it is malformed.
pub open spec fn tlv_parse(p: Seq<u8>) -> Result<Seq<(u8, Seq<u8>)>, FrameError>
    decreases p.len(),
{
    if p.len() == 0 {
        Ok(Seq::empty())
    } else if p.len() < 3 {
        Err(FrameError::TlvHeaderTruncated)
    } else if p.len() - 3 < p[1] as nat * 256 + p[2] as nat {
        Err(FrameError::TlvValueOverrun)
    } else {
        let end = 3 + p[1] as nat * 256 + p[2] as nat;
        match tlv_parse(p.subrange(end as int, p.len() as int)) {
            Ok(rest) => Ok(seq![(p[0], p.subrange(3, end as int))] + rest),
            Err(e) => Err(e),
        }
    }
}

/// The value that the last entry with tag `t` carries; a later entry
/// overrides an earlier one.
pub open spec fn tlv_lookup(fields: Seq<(u8, Seq<u8>)>, t: u8) -> Option<Seq<u8>>
    decreases fields.len(),
{
    if fields.len() == 0 {
        None
    } else if fields.last().0 == t {
        Some(fields.last().1)
    } else {
        tlv_lookup(fields.drop_last(), t)
    }
}

pub open spec fn fields_view(fields: Seq<TlvField>) -> Seq<(u8, Seq<u8>)> {
    fields.map_values(|f: TlvField| (f.tag, f.value@))
}

/// The repeating mask applied to obfuscated frames.
pub open spec fn xor_key() -> Seq<u8> {
    seq![99u8, 111, 119, 99, 97, 116, 119, 97, 102, 108, 105, 98, 119, 97, 102, 99, 97, 116, 99, 111, 119]
}

/// `data` with each byte XORed with the key byte at its position, the key
/// repeating.
pub open spec fn masked(data: Seq<u8>, key: Seq<u8>) -> Seq<u8>
    recommends
        key.len() > 0,
{
    Seq::new(data.len(), |i: int| data[i] ^ key[i % key.len() as int])
}

/// The obfuscation key, `cowcatwaflibwafcatcow`.
pub fn xor_key_bytes() -> (r: Vec<u8>)
    ensures
        r@ == xor_key(),
{
    let r: Vec<u8> = vec![99u8, 111, 119, 99, 97, 116, 119, 97, 102, 108, 105, 98, 119, 97, 102, 99, 97, 116, 99, 111, 119];
    assert(r@ == xor_key());
    r
}

proof fn lemma_be32_value(n: nat)
    requires
        n < 4294967296,
    ensures
        be_value(be32(n)) == n,
{
    let b = be32(n);
    assert(b.drop_last().drop_last().drop_last().drop_last().len() == 0);
    assert(b.drop_last().drop_last().drop_last() == seq![(n / 16777216) as u8]);
    assert(b.drop_last().drop_last() == seq![(n / 16777216) as u8, ((n / 65536) % 256) as u8]);
    assert(b.drop_last() == seq![(n / 16777216) as u8, ((n / 65536) % 256) as u8, ((n / 256) % 256) as u8]);
    assert(be_value(b) == (((n / 16777216) * 256 + (n / 65536) % 256) * 256 + (n / 256) % 256) * 256 + n % 256) by {
        reveal_with_fuel(be_value, 5);
    }
    assert((((n / 16777216) * 256 + (n / 65536) % 256) * 256 + (n / 256) % 256) * 256 + n % 256 == n) by (nonlinear_arith)
        requires n < 4294967296;
}

/// Builds a frame of type `frame_type` around `payload`.
pub fn encode_frame(frame_type: u8, payload: Vec<u8>) -> (r: Vec<u8>)
    requires
        payload@.len() <= u32::MAX,
    ensures
        r@ == frame_of(frame_type, payload@),
        r@.len() == payload@.len() + 8,
        r@.subrange(0, 3) == seq![FRAME_MAGIC0, FRAME_MAGIC1, FRAME_VERSION],
        be_value(r@.subrange(4, 8)) == payload@.len(),
        frame_parse(r@) == Ok::<(u8, Seq<u8>), FrameError>((frame_type, payload@)),
{
    let n = payload.len() as u32;
    let mut buf: Vec<u8> = Vec::new();
    buf.push(FRAME_MAGIC0);
    buf.push(FRAME_MAGIC1);
    buf.push(FRAME_VERSION);
    buf.push(frame_type);
    buf.push((n / 16777216) as u8);
    buf.push(((n / 65536) % 256) as u8);
    buf.push(((n / 256) % 256) as u8);
    buf.push((n % 256) as u8);
    push_all(&mut buf, payload.as_slice());
    proof {
        let s = buf@;
        assert(s.subrange(0, 8) == seq![FRAME_MAGIC0, FRAME_MAGIC1, FRAME_VERSION, frame_type] + be32(payload@.len()));
        assert(s == frame_of(frame_type, payload@));
        assert(s.subrange(4, 8) == be32(payload@.len()));
        lemma_be32_value(payload@.len());
        assert(s.subrange(0, 3) == seq![FRAME_MAGIC0, FRAME_MAGIC1, FRAME_VERSION]);
        assert(s.subrange(8, s.len() as int) == payload@);
    }
    buf
}

/// Reads a frame: its type and its payload.
pub fn decode_frame(data: &[u8]) -> (r: Result<(u8, Vec<u8>), FrameError>)
    ensures
        match (r, frame_parse(data@)) {
            (Ok((t, p)), Ok((st, sp))) => t == st && p@ == sp,
            (Err(e), Err(se)) => e == se,
            _ => false,
        },
{
    if data.len() < 8 {
        return Err(FrameError::TooShort);
    }
    if data[0] != FRAME_MAGIC0 || data[1] != FRAME_MAGIC1 {
        return Err(FrameError::BadMagic);
    }
    if data[2] != FRAME_VERSION {
        return Err(FrameError::UnsupportedVersion);
    }
    let frame_type = data[3];
    let declared: u64 = ((data[4] as u64 * 256 + data[5] as u64) * 256 + data[6] as u64) * 256 + data[7] as u64;
    proof {
        let h = data@.subrange(4, 8);
        assert(h.drop_last().drop_last().drop_last().drop_last().len() == 0);
        assert(be_value(h) == ((data@[4] as nat * 256 + data@[5] as nat) * 256 + data@[6] as nat) * 256 + data@[7] as nat) by {
            reveal_with_fuel(be_value, 5);
        }
    }
    if declared != (data.len() - 8) as u64 {
        return Err(FrameError::LengthMismatch);
    }
    let payload = slice_to_vec(slice_subrange(data, 8, data.len()));
    Ok((frame_type, payload))
}

/// XORs `data` in place with `key`, repeated; applying it twice restores
/// the bytes.
pub fn deobfuscate_frame(data: &mut Vec<u8>, key: &[u8])
    requires
        key@.len() > 0,
    ensures
        final(data)@ == masked(old(data)@, key@),
{
    let mut i: usize = 0;
    while i < data.len()
        invariant
            0 <= i <= data@.len(),
            data@.len() == old(data)@.len(),
            key@.len() > 0,
            forall|j: int| 0 <= j < i ==> data@[j] == old(data)@[j] ^ key@[j % key@.len() as int],
            forall|j: int| i <= j < data@.len() ==> data@[j] == old(data)@[j],
        decreases data@.len() - i,
    {
        let b = data[i] ^ key[i % key.len()];
        data.set(i, b);
        i = i + 1;
    }
    assert(data@ == masked(old(data)@, key@));
}

/// Masking twice with the same key gives the input back.
pub proof fn lemma_mask_involution(data: Seq<u8>, key: Seq<u8>)
    requires
        key.len() > 0,
    ensures
        masked(masked(data, key), key) == data,
{
    let m = masked(masked(data, key), key);
    assert forall|i: int| 0 <= i < data.len() implies m[i] == data[i] by {
        let a = data[i];
        let k = key[i % key.len() as int];
        assert((a ^ k) ^ k == a) by (bit_vector);
    }
    assert(m == data);
}

/// Appends one TLV entry to `buf`; a value too long for a u16 length is
/// skipped.
pub fn append_tlv(buf: Vec<u8>, t: u8, v: &[u8]) -> (r: Vec<u8>)
    ensures
        r@ == buf@ + tlv_of(t, v@),
{
    let mut buf = buf;
    if v.len() > 65535 {
        assert(tlv_of(t, v@) == Seq::<u8>::empty());
        assert(buf@ + Seq::<u8>::empty() == buf@);
        return buf;
    }
    let n = v.len() as u16;
    let old_buf = Ghost(buf@);
    buf.push(t);
    buf.push((n / 256) as u8);
    buf.push((n % 256) as u8);
    push_all(&mut buf, v);
    assert(buf@ == old_buf@ + tlv_of(t, v@));
    buf
}

proof fn lemma_tlv_parse_step(p: Seq<u8>, idx: int)
    requires
        0 <= idx < p.len(),
        p.len() - idx >= 3,
        p.len() - idx - 3 >= p[idx + 1] as nat * 256 + p[idx + 2] as nat,
    ensures
        ({
            let s = p.subrange(idx, p.len() as int);
            let end = idx + 3 + p[idx + 1] as nat * 256 + p[idx + 2] as nat;
            tlv_parse(s) == match tlv_parse(p.subrange(end, p.len() as int)) {
                Ok(rest) => Ok(seq![(p[idx], p.subrange(idx + 3, end))] + rest),
                Err(e) => Err(e),
            }
        }),
{
    let s = p.subrange(idx, p.len() as int);
    let len = p[idx + 1] as nat * 256 + p[idx + 2] as nat;
    assert(s[0] == p[idx] && s[1] == p[idx + 1] && s[2] == p[idx + 2]);
    assert(s.subrange((3 + len) as int, s.len() as int) == p.subrange(idx + 3 + len, p.len() as int));
    assert(s.subrange(3, (3 + len) as int) == p.subrange(idx + 3, idx + 3 + len));
}

/// Splits a payload into its TLV entries, in order.
pub fn parse_tlv(payload: &[u8]) -> (r: Result<Vec<TlvField>, FrameError>)
    ensures
        match (r, tlv_parse(payload@)) {
            (Ok(fields), Ok(sf)) => fields_view(fields@) == sf,
            (Err(e), Err(se)) => e == se,
            _ => false,
        },
{
    let mut fields: Vec<TlvField> = Vec::new();
    let mut idx: usize = 0;
    let n = payload.len();
    proof {
        assert(payload@.subrange(0, n as int) == payload@);
        match tlv_parse(payload@) {
            Ok(rest) => {
                assert(fields_view(fields@) + rest == rest);
            },
            Err(e) => {},
        }
    }
    while idx < n
        invariant
            n == payload@.len(),
            0 <= idx <= n,
            tlv_parse(payload@) == match tlv_parse(payload@.subrange(idx as int, n as int)) {
                Ok(rest) => Ok(fields_view(fields@) + rest),
                Err(e) => Err(e),
            },
        decreases n - idx,
    {
        if n - idx < 3 {
            return Err(FrameError::TlvHeaderTruncated);
        }
        let t = payload[idx];
        let len: usize = payload[idx + 1] as usize * 256 + payload[idx + 2] as usize;
        if n - idx - 3 < len {
            return Err(FrameError::TlvValueOverrun);
        }
        proof {
            lemma_tlv_parse_step(payload@, idx as int);
        }
        let value = slice_to_vec(slice_subrange(payload, idx + 3, idx + 3 + len));
        let ghost before = fields@;
        fields.push(TlvField { tag: t, value });
        proof {
            assert(fields_view(fields@) == fields_view(before) + seq![(t, value@)]);
            match tlv_parse(payload@.subrange((idx + 3 + len) as int, n as int)) {
                Ok(rest) => {
                    assert(fields_view(fields@) + rest == fields_view(before) + (seq![(t, value@)] + rest));
                },
                Err(e) => {},
            }
        }
        idx = idx + 3 + len;
    }
    proof {
        assert(payload@.subrange(n as int, n as int) == Seq::<u8>::empty());
        assert(fields_view(fields@) + Seq::<(u8, Seq<u8>)>::empty() == fields_view(fields@));
    }
    Ok(fields)
}

/// The value of the last entry with tag `t`, if any.
pub fn lookup_tlv(fields: &Vec<TlvField>, t: u8) -> (r: Option<&Vec<u8>>)
    ensures
        match (r, tlv_lookup(fields_view(fields@), t)) {
            (Some(v), Some(sv)) => v@ == sv,
            (None, None) => true,
            _ => false,
        },
{
    let mut i: usize = fields.len();
    assert(fields@.subrange(0, i as int) == fields@);
    while i > 0
        invariant
            0 <= i <= fields@.len(),
            tlv_lookup(fields_view(fields@), t) == tlv_lookup(fields_view(fields@.subrange(0, i as int)), t),
        decreases i,
    {
        let ghost prefix = fields@.subrange(0, i as int);
        assert(fields_view(prefix).drop_last() == fields_view(fields@.subrange(0, i - 1)));
        if fields[i - 1].tag == t {
            return Some(&fields[i - 1].value);
        }
        i = i - 1;
    }
    None
}


/// The payload of a task response: one entry per field, in a fixed order;
/// `worker_type` is left out when empty.
pub open spec fn task_response_payload(r: BinaryTaskResponse) -> Seq<u8> {
    task_payload(r.task_id@, r.seed@, r.bits, r.exp, r.scope@, r.ua_hash@, r.ip_hash@, r.workers, r.worker_type@)
}

/// The payload of a task response with the given fields.
pub open spec fn task_payload(
    task_id: Seq<char>,
    seed: Seq<char>,
    bits: i32,
    exp: i64,
    scope: Seq<char>,
    ua_hash: Seq<char>,
    ip_hash: Seq<char>,
    workers: i32,
    worker_type: Seq<char>,
) -> Seq<u8> {
    tlv_of(TLV_TASK_ID, encode_utf8(task_id))
    + tlv_of(TLV_SEED, encode_utf8(seed))
    + tlv_of(TLV_EXP, be64(exp as u64 as nat))
    + tlv_of(TLV_BITS, be16(bits as u16 as nat))
    + tlv_of(TLV_SCOPE, encode_utf8(scope))
    + tlv_of(TLV_UA_HASH, encode_utf8(ua_hash))
    + tlv_of(TLV_IP_HASH, encode_utf8(ip_hash))
    + tlv_of(TLV_WORKERS, seq![workers as u8])
    + (if worker_type.len() > 0 {
        tlv_of(TLV_WORKER_TYPE, encode_utf8(worker_type))
    } else {
        Seq::empty()
    })
}

/// The text that a field's bytes decode to: exact for valid UTF-8,
/// with replacement characters otherwise.
pub open spec fn text_of(b: Seq<u8>) -> Seq<char> {
    if valid_utf8(b) {
        decode_utf8(b)
    } else {
        lossy_text(b)
    }
}

/// The text of the last entry with tag `t`, or the empty text.
pub open spec fn text_or_empty(fields: Seq<(u8, Seq<u8>)>, t: u8) -> Seq<char> {
    match tlv_lookup(fields, t) {
        Some(v) => text_of(v),
        None => Seq::empty(),
    }
}

/// The number held in the last entry with tag `t`, when that entry is
/// exactly `width` bytes long.
pub open spec fn number_field(fields: Seq<(u8, Seq<u8>)>, t: u8, width: nat) -> Option<nat> {
    match tlv_lookup(fields, t) {
        Some(v) => if v.len() == width {
            Some(be_value(v))
        } else {
            None
        },
        None => None,
    }
}

/// Whether the entries hold every field that a task response needs.
pub open spec fn task_response_complete(f: Seq<(u8, Seq<u8>)>) -> bool {
    &&& tlv_lookup(f, TLV_TASK_ID) is Some
    &&& tlv_lookup(f, TLV_SEED) is Some
    &&& tlv_lookup(f, TLV_SCOPE) is Some
    &&& tlv_lookup(f, TLV_UA_HASH) is Some
    &&& number_field(f, TLV_EXP, 8) is Some
    &&& number_field(f, TLV_BITS, 2) is Some
    &&& number_field(f, TLV_WORKERS, 1) is Some
}

/// Whether `r` is what the entries `f` of a complete task response say.
pub open spec fn task_response_from(r: BinaryTaskResponse, f: Seq<(u8, Seq<u8>)>) -> bool {
    &&& r.task_id@ == text_or_empty(f, TLV_TASK_ID)
    &&& r.seed@ == text_or_empty(f, TLV_SEED)
    &&& r.scope@ == text_or_empty(f, TLV_SCOPE)
    &&& r.ua_hash@ == text_or_empty(f, TLV_UA_HASH)
    &&& r.ip_hash@ == text_or_empty(f, TLV_IP_HASH)
    &&& r.exp == number_field(f, TLV_EXP, 8)->0 as u64 as i64
    &&& r.bits == number_field(f, TLV_BITS, 2)->0 as i32
    &&& r.workers == number_field(f, TLV_WORKERS, 1)->0 as i32
    &&& r.worker_type@ == match tlv_lookup(f, TLV_WORKER_TYPE) {
        Some(v) => text_of(v),
        None => "wasm"@,
    }
}

fn be16_bytes(n: u16) -> (r: Vec<u8>)
    ensures
        r@ == be16(n as nat),
{
    let r: Vec<u8> = vec![(n / 256) as u8, (n % 256) as u8];
    assert(r@ == be16(n as nat));
    r
}

fn push_be32(buf: &mut Vec<u8>, n: u32)
    ensures
        final(buf)@ == old(buf)@ + be32(n as nat),
{
    buf.push((n / 16777216) as u8);
    buf.push(((n / 65536) % 256) as u8);
    buf.push(((n / 256) % 256) as u8);
    buf.push((n % 256) as u8);
    assert(final(buf)@ == old(buf)@ + be32(n as nat));
}

fn be64_bytes(n: u64) -> (r: Vec<u8>)
    ensures
        r@ == be64(n as nat),
{
    let mut r: Vec<u8> = Vec::new();
    push_be32(&mut r, (n / 4294967296) as u32);
    push_be32(&mut r, (n % 4294967296) as u32);
    assert(r@ == be64(n as nat));
    r
}

/// The TLV payload of a task response.
pub fn encode_task_response(resp: BinaryTaskResponse) -> (r: Vec<u8>)
    ensures
        r@ == task_response_payload(resp),
        r@.len() <= 9 * 65538,
{
    let mut payload: Vec<u8> = Vec::new();
    payload = append_tlv(payload, TLV_TASK_ID, resp.task_id.as_str().as_bytes());
    payload = append_tlv(payload, TLV_SEED, resp.seed.as_str().as_bytes());
    let exp = be64_bytes(resp.exp as u64);
    payload = append_tlv(payload, TLV_EXP, exp.as_slice());
    let bits = be16_bytes(resp.bits as u16);
    payload = append_tlv(payload, TLV_BITS, bits.as_slice());
    payload = append_tlv(payload, TLV_SCOPE, resp.scope.as_str().as_bytes());
    payload = append_tlv(payload, TLV_UA_HASH, resp.ua_hash.as_str().as_bytes());
    payload = append_tlv(payload, TLV_IP_HASH, resp.ip_hash.as_str().as_bytes());
    let workers: Vec<u8> = vec![resp.workers as u8];
    payload = append_tlv(payload, TLV_WORKERS, workers.as_slice());
    let ghost fixed = payload@;
    if resp.worker_type.as_str().len() > 0 {
        payload = append_tlv(payload, TLV_WORKER_TYPE, resp.worker_type.as_str().as_bytes());
    } else {
        assert(fixed + Seq::<u8>::empty() == fixed);
    }
    proof {
        assert(resp.worker_type@.len() == 0 <==> encode_utf8(resp.worker_type@).len() == 0) by {
            if resp.worker_type@.len() == 0 {
                assert(resp.worker_type@ == Seq::<char>::empty());
            }
            if encode_utf8(resp.worker_type@).len() == 0 {
                assert(decode_utf8(encode_utf8(resp.worker_type@)) == decode_utf8(Seq::<u8>::empty()));
            }
        }
    }
    payload
}

/// The task-response frame that announces `task`, unmasked, with the
/// worker count and kind the browser should use.
pub fn task_response_frame(task: &Task, workers: i32, worker_type: &str) -> (r: Vec<u8>)
    ensures
        r@ == frame_of(
            FRAME_TYPE_TASK_RESPONSE,
            task_payload(task.task_id.0@, task.seed.0@, task.bits as i32, task.exp, task.scope.0@,
                task.ua_hash.0@, task.ip_hash.0@, workers, worker_type@),
        ),
{
    let resp = BinaryTaskResponse {
        task_id: task.task_id.0.clone(),
        seed: task.seed.0.clone(),
        bits: task.bits as i32,
        exp: task.exp,
        scope: task.scope.0.clone(),
        ua_hash: task.ua_hash.0.clone(),
        ip_hash: task.ip_hash.0.clone(),
        workers,
        worker_type: worker_type.to_owned(),
    };
    let payload = encode_task_response(resp);
    encode_frame(FRAME_TYPE_TASK_RESPONSE, payload)
}

/// The masked task-response frame that answers a task request.
pub fn encode_task_response_frame(task: &Task, workers: i32, worker_type: &str) -> (r: Vec<u8>)
    ensures
        r@ == masked(
            frame_of(
                FRAME_TYPE_TASK_RESPONSE,
                task_payload(task.task_id.0@, task.seed.0@, task.bits as i32, task.exp, task.scope.0@,
                    task.ua_hash.0@, task.ip_hash.0@, workers, worker_type@),
            ),
            xor_key(),
        ),
{
    let mut frame = task_response_frame(task, workers, worker_type);
    let key = xor_key_bytes();
    deobfuscate_frame(&mut frame, key.as_slice());
    frame
}

/// Reads the text of an entry, or the empty text when it is absent.
fn field_text(fields: &Vec<TlvField>, t: u8) -> (r: String)
    ensures
        r@ == text_or_empty(fields_view(fields@), t),
{
    match lookup_tlv(fields, t) {
        Some(v) => text_from_bytes(v.as_slice()),
        None => String::new(),
    }
}

/// Reads a big-endian number of `width` bytes from an entry.
fn field_number(fields: &Vec<TlvField>, t: u8, width: usize) -> (r: Option<u64>)
    requires
        width <= 8,
    ensures
        match (r, number_field(fields_view(fields@), t, width as nat)) {
            (Some(x), Some(y)) => x as nat == y,
            (None, None) => true,
            _ => false,
        },
{
    match lookup_tlv(fields, t) {
        Some(v) => {
            if v.len() != width {
                return None;
            }
            let mut acc: u64 = 0;
            let mut i: usize = 0;
            while i < width
                invariant
                    v@.len() == width,
                    width <= 8,
                    0 <= i <= width,
                    acc as nat == be_value(v@.subrange(0, i as int)),
                    acc as nat <= pow256(i as nat) - 1,
                decreases width - i,
            {
                proof {
                    let pre = v@.subrange(0, i as int + 1);
                    assert(pre.drop_last() == v@.subrange(0, i as int));
                    lemma_pow256_bound(i as nat);
                    lemma_pow256_bound(i as nat + 1);
                    assert(acc * 256 + v@[i as int] <= pow256(i as nat + 1) - 1) by (nonlinear_arith)
                        requires acc <= pow256(i as nat) - 1, v@[i as int] <= 255, pow256(i as nat + 1) == pow256(i as nat) * 256;
                }
                acc = acc * 256 + v[i] as u64;
                i = i + 1;
            }
            assert(v@.subrange(0, width as int) == v@);
            Some(acc)
        },
        None => None,
    }
}

/// `256` to the power `n`.
pub open spec fn pow256(n: nat) -> nat
    decreases n,
{
    if n == 0 {
        1
    } else {
        256 * pow256((n - 1) as nat)
    }
}

proof fn lemma_pow256_bound(n: nat)
    requires
        n <= 8,
    ensures
        pow256(n) <= 18446744073709551616,
        pow256(n + 1) == pow256(n) * 256,
        pow256(n) >= 1,
    decreases n,
{
    reveal_with_fuel(pow256, 9);
}

/// Reads the payload of a task request.
pub fn decode_task_request(payload: &[u8]) -> (r: Result<BinaryTaskRequest, FrameError>)
    ensures
        match (r, tlv_parse(payload@)) {
            (Ok(req), Ok(f)) => req.redirect@ == text_or_empty(f, TLV_REDIRECT),
            (Err(e), Err(se)) => e == se,
            _ => false,
        },
{
    let fields = match parse_tlv(payload) {
        Ok(f) => f,
        Err(e) => return Err(e),
    };
    let redirect = field_text(&fields, TLV_REDIRECT);
    Ok(BinaryTaskRequest { redirect })
}

/// Reads the payload of a verify request; `task_id` and `nonce` must be
/// present and not empty, `redirect` defaults to the empty text.
pub fn decode_verify_request(payload: &[u8]) -> (r: Result<BinaryVerifyRequest, FrameError>)
    ensures
        match tlv_parse(payload@) {
            Err(se) => r == Err::<BinaryVerifyRequest, FrameError>(se),
            Ok(f) => if text_or_empty(f, TLV_TASK_ID).len() == 0 || text_or_empty(f, TLV_NONCE).len() == 0 {
                r == Err::<BinaryVerifyRequest, FrameError>(FrameError::MissingField)
            } else {
                r matches Ok(req) && req.task_id@ == text_or_empty(f, TLV_TASK_ID)
                    && req.nonce@ == text_or_empty(f, TLV_NONCE)
                    && req.redirect@ == text_or_empty(f, TLV_REDIRECT)
            },
        },
{
    let fields = match parse_tlv(payload) {
        Ok(f) => f,
        Err(e) => return Err(e),
    };
    let task_id = field_text(&fields, TLV_TASK_ID);
    let nonce = field_text(&fields, TLV_NONCE);
    let redirect = field_text(&fields, TLV_REDIRECT);
    if task_id.as_str().unicode_len() == 0 || nonce.as_str().unicode_len() == 0 {
        return Err(FrameError::MissingField);
    }
    Ok(BinaryVerifyRequest { task_id, nonce, redirect })
}

/// Reads the payload of a task response, as the browser side does: every
/// field but `ip_hash` and `worker_type` is required, `worker_type`
/// defaults to `wasm`.
pub fn decode_task_response(payload: &[u8]) -> (r: Result<BinaryTaskResponse, FrameError>)
    ensures
        match tlv_parse(payload@) {
            Err(se) => r == Err::<BinaryTaskResponse, FrameError>(se),
            Ok(f) => if task_response_complete(f) {
                r matches Ok(resp) && task_response_from(resp, f)
            } else {
                r == Err::<BinaryTaskResponse, FrameError>(FrameError::MissingField)
            },
        },
{
    let fields = match parse_tlv(payload) {
        Ok(f) => f,
        Err(e) => return Err(e),
    };
    if lookup_tlv(&fields, TLV_TASK_ID).is_none() || lookup_tlv(&fields, TLV_SEED).is_none()
        || lookup_tlv(&fields, TLV_SCOPE).is_none() || lookup_tlv(&fields, TLV_UA_HASH).is_none() {
        return Err(FrameError::MissingField);
    }
    let exp = match field_number(&fields, TLV_EXP, 8) {
        Some(x) => x,
        None => return Err(FrameError::MissingField),
    };
    let bits = match field_number(&fields, TLV_BITS, 2) {
        Some(x) => x,
        None => return Err(FrameError::MissingField),
    };
    let workers = match field_number(&fields, TLV_WORKERS, 1) {
        Some(x) => x,
        None => return Err(FrameError::MissingField),
    };
    let worker_type = match lookup_tlv(&fields, TLV_WORKER_TYPE) {
        Some(v) => text_from_bytes(v.as_slice()),
        None => String::from_str("wasm"),
    };
    Ok(BinaryTaskResponse {
        task_id: field_text(&fields, TLV_TASK_ID),
        seed: field_text(&fields, TLV_SEED),
        bits: bits as i32,
        exp: exp as i64,
        scope: field_text(&fields, TLV_SCOPE),
        ua_hash: field_text(&fields, TLV_UA_HASH),
        ip_hash: field_text(&fields, TLV_IP_HASH),
        workers: workers as i32,
        worker_type,
    })
}

/// The TLV payload of a verify response.
pub fn encode_verify_response(resp: BinaryVerifyResponse) -> (r: Vec<u8>)
    ensures
        r@ == tlv_of(TLV_REDIRECT, encode_utf8(resp.redirect@)),
{
    let r = append_tlv(Vec::new(), TLV_REDIRECT, resp.redirect.as_str().as_bytes());
    assert(Seq::<u8>::empty() + tlv_of(TLV_REDIRECT, encode_utf8(resp.redirect@)) == tlv_of(TLV_REDIRECT, encode_utf8(resp.redirect@)));
    r
}

/// An error frame carrying `message`.
pub fn encode_error_frame(message: &str) -> (r: Vec<u8>)
    ensures
        r@ == frame_of(FRAME_TYPE_ERROR, tlv_of(TLV_ERROR, encode_utf8(message@))),
{
    let payload = append_tlv(Vec::new(), TLV_ERROR, message.as_bytes());
    assert(Seq::<u8>::empty() + tlv_of(TLV_ERROR, encode_utf8(message@)) == tlv_of(TLV_ERROR, encode_utf8(message@)));
    encode_frame(FRAME_TYPE_ERROR, payload)
}


proof fn lemma_be_value_concat(a: Seq<u8>, b: Seq<u8>)
    ensures
        be_value(a + b) == be_value(a) * pow256(b.len()) + be_value(b),
    decreases b.len(),
{
    if b.len() == 0 {
        assert(a + b == a);
        assert(be_value(b) == 0);
        assert(pow256(0) == 1);
    } else {
        let bl = b.drop_last();
        assert((a + b).drop_last() == a + bl);
        assert((a + b).last() == b.last());
        assert(be_value(a + b) == be_value(a + bl) * 256 + b.last() as nat);
        assert(be_value(b) == be_value(bl) * 256 + b.last() as nat);
        lemma_be_value_concat(a, bl);
        let x = be_value(a);
        let p = pow256(bl.len());
        assert(pow256(b.len()) == 256 * p);
        assert((x * p + be_value(bl)) * 256 + b.last() as nat == x * (256 * p) + (be_value(bl) * 256 + b.last() as nat)) by (nonlinear_arith);
    }
}

proof fn lemma_be16_value(n: nat)
    requires
        n < 65536,
    ensures
        be_value(be16(n)) == n,
{
    let b = be16(n);
    assert(b.drop_last().drop_last().len() == 0);
    assert(b.drop_last() == seq![(n / 256) as u8]);
    assert(be_value(b) == (n / 256) * 256 + n % 256) by {
        reveal_with_fuel(be_value, 3);
    }
}

proof fn lemma_be64_value(n: nat)
    requires
        n < 18446744073709551616,
    ensures
        be_value(be64(n)) == n,
{
    assert(n == (n / 4294967296) * 4294967296 + n % 4294967296 && n / 4294967296 < 4294967296) by (nonlinear_arith)
        requires n < 18446744073709551616;
    lemma_be32_value(n / 4294967296);
    lemma_be32_value(n % 4294967296);
    lemma_be_value_concat(be32(n / 4294967296), be32(n % 4294967296));
    assert(pow256(4) == 4294967296) by {
        reveal_with_fuel(pow256, 5);
    }
}

proof fn lemma_tlv_parse_cons(t: u8, v: Seq<u8>, rest: Seq<u8>)
    requires
        v.len() <= 65535,
    ensures
        tlv_parse(tlv_of(t, v) + rest) == match tlv_parse(rest) {
            Ok(f) => Ok(seq![(t, v)] + f),
            Err(e) => Err(e),
        },
{
    let p = tlv_of(t, v) + rest;
    let n = v.len() as int;
    assert(p[0] == t);
    assert(p[1] == (n / 256) as u8 && p[2] == (n % 256) as u8);
    assert(p[1] as nat * 256 + p[2] as nat == n);
    assert(p.subrange(3 + n, p.len() as int) == rest);
    assert(p.subrange(3, 3 + n) == v);
}

proof fn lemma_tlv_lookup_unique(f: Seq<(u8, Seq<u8>)>, i: int)
    requires
        0 <= i < f.len(),
        forall|j: int| i < j < f.len() ==> f[j].0 != f[i].0,
    ensures
        tlv_lookup(f, f[i].0) == Some(f[i].1),
    decreases f.len(),
{
    if i < f.len() - 1 {
        let g = f.drop_last();
        assert(g[i] == f[i]);
        lemma_tlv_lookup_unique(g, i);
    }
}

/// The entries that the payload of `r` parses into.
spec fn payload_entries(r: BinaryTaskResponse) -> Seq<(u8, Seq<u8>)> {
    seq![(TLV_TASK_ID, encode_utf8(r.task_id@)), (TLV_SEED, encode_utf8(r.seed@)),
        (TLV_EXP, be64(r.exp as u64 as nat)), (TLV_BITS, be16(r.bits as u16 as nat)),
        (TLV_SCOPE, encode_utf8(r.scope@)), (TLV_UA_HASH, encode_utf8(r.ua_hash@)),
        (TLV_IP_HASH, encode_utf8(r.ip_hash@)), (TLV_WORKERS, seq![r.workers as u8]),
        (TLV_WORKER_TYPE, encode_utf8(r.worker_type@))]
}

#[verifier::rlimit(100)]
proof fn lemma_payload_entries(r: BinaryTaskResponse)
    requires
        encode_utf8(r.task_id@).len() <= 65535,
        encode_utf8(r.seed@).len() <= 65535,
        encode_utf8(r.scope@).len() <= 65535,
        encode_utf8(r.ua_hash@).len() <= 65535,
        encode_utf8(r.ip_hash@).len() <= 65535,
        encode_utf8(r.worker_type@).len() <= 65535,
        r.worker_type@.len() > 0,
    ensures
        tlv_parse(task_response_payload(r)) == Ok::<Seq<(u8, Seq<u8>)>, FrameError>(payload_entries(r)),
{
    let f = payload_entries(r);
    let t9 = tlv_of(f[8].0, f[8].1);
    let t8 = tlv_of(f[7].0, f[7].1) + t9;
    let t7 = tlv_of(f[6].0, f[6].1) + t8;
    let t6 = tlv_of(f[5].0, f[5].1) + t7;
    let t5 = tlv_of(f[4].0, f[4].1) + t6;
    let t4 = tlv_of(f[3].0, f[3].1) + t5;
    let t3 = tlv_of(f[2].0, f[2].1) + t4;
    let t2 = tlv_of(f[1].0, f[1].1) + t3;
    let t1 = tlv_of(f[0].0, f[0].1) + t2;
    assert(task_response_payload(r) == t1);
    assert(tlv_parse(Seq::<u8>::empty()) == Ok::<Seq<(u8, Seq<u8>)>, FrameError>(Seq::empty()));
    assert(t9 + Seq::<u8>::empty() == t9);
    lemma_tlv_parse_cons(f[8].0, f[8].1, Seq::empty());
    assert(seq![(f[8].0, f[8].1)] + Seq::<(u8, Seq<u8>)>::empty() == f.subrange(8, 9));
    lemma_tlv_parse_cons(f[7].0, f[7].1, t9);
    assert(seq![f[7]] + f.subrange(8, 9) == f.subrange(7, 9));
    lemma_tlv_parse_cons(f[6].0, f[6].1, t8);
    assert(seq![f[6]] + f.subrange(7, 9) == f.subrange(6, 9));
    lemma_tlv_parse_cons(f[5].0, f[5].1, t7);
    assert(seq![f[5]] + f.subrange(6, 9) == f.subrange(5, 9));
    lemma_tlv_parse_cons(f[4].0, f[4].1, t6);
    assert(seq![f[4]] + f.subrange(5, 9) == f.subrange(4, 9));
    lemma_tlv_parse_cons(f[3].0, f[3].1, t5);
    assert(seq![f[3]] + f.subrange(4, 9) == f.subrange(3, 9));
    lemma_tlv_parse_cons(f[2].0, f[2].1, t4);
    assert(seq![f[2]] + f.subrange(3, 9) == f.subrange(2, 9));
    lemma_tlv_parse_cons(f[1].0, f[1].1, t3);
    assert(seq![f[1]] + f.subrange(2, 9) == f.subrange(1, 9));
    lemma_tlv_parse_cons(f[0].0, f[0].1, t2);
    assert(seq![f[0]] + f.subrange(1, 9) == f);
}

/// Every field of a task response survives the trip through its payload:
/// the payload parses, holds every required entry, and what those entries
/// say is the response itself. A field stands only when its bytes fit a
/// TLV entry, `bits` fits a u16, `workers` a u8, and `worker_type` (which
/// is left out when empty and then read as `wasm`) is not empty.
#[verifier::rlimit(50)]
pub proof fn lemma_task_response_round_trip(r: BinaryTaskResponse)
    requires
        encode_utf8(r.task_id@).len() <= 65535,
        encode_utf8(r.seed@).len() <= 65535,
        encode_utf8(r.scope@).len() <= 65535,
        encode_utf8(r.ua_hash@).len() <= 65535,
        encode_utf8(r.ip_hash@).len() <= 65535,
        encode_utf8(r.worker_type@).len() <= 65535,
        0 <= r.bits <= 65535,
        0 <= r.workers <= 255,
        r.worker_type@.len() > 0,
    ensures
        tlv_parse(task_response_payload(r)) matches Ok(f) && task_response_complete(f) && task_response_from(r, f),
{
    let a = encode_utf8(r.task_id@);
    let b = encode_utf8(r.seed@);
    let c = be64(r.exp as u64 as nat);
    let d = be16(r.bits as u16 as nat);
    let e = encode_utf8(r.scope@);
    let g = encode_utf8(r.ua_hash@);
    let h = encode_utf8(r.ip_hash@);
    let w = seq![r.workers as u8];
    let x = encode_utf8(r.worker_type@);
    let f = seq![(TLV_TASK_ID, a), (TLV_SEED, b), (TLV_EXP, c), (TLV_BITS, d), (TLV_SCOPE, e),
        (TLV_UA_HASH, g), (TLV_IP_HASH, h), (TLV_WORKERS, w), (TLV_WORKER_TYPE, x)];
    lemma_payload_entries(r);
    assert forall|i: int, j: int| 0 <= i < j < f.len() implies f[i].0 != f[j].0 by {}
    lemma_tlv_lookup_unique(f, 0);
    lemma_tlv_lookup_unique(f, 1);
    lemma_tlv_lookup_unique(f, 2);
    lemma_tlv_lookup_unique(f, 3);
    lemma_tlv_lookup_unique(f, 4);
    lemma_tlv_lookup_unique(f, 5);
    lemma_tlv_lookup_unique(f, 6);
    lemma_tlv_lookup_unique(f, 7);
    lemma_tlv_lookup_unique(f, 8);
    assert(tlv_lookup(f, TLV_TASK_ID) == Some(a));
    assert(tlv_lookup(f, TLV_SEED) == Some(b));
    assert(tlv_lookup(f, TLV_EXP) == Some(c));
    assert(tlv_lookup(f, TLV_BITS) == Some(d));
    assert(tlv_lookup(f, TLV_SCOPE) == Some(e));
    assert(tlv_lookup(f, TLV_UA_HASH) == Some(g));
    assert(tlv_lookup(f, TLV_IP_HASH) == Some(h));
    assert(tlv_lookup(f, TLV_WORKERS) == Some(w));
    assert(tlv_lookup(f, TLV_WORKER_TYPE) == Some(x));
    let ex = r.exp;
    assert((ex as u64) as i64 == ex) by (bit_vector);
    lemma_be64_value(r.exp as u64 as nat);
    let bi = r.bits;
    assert(0 <= bi <= 65535 ==> (bi as u16) as i32 == bi) by (bit_vector);
    lemma_be16_value(r.bits as u16 as nat);
    let wk = r.workers;
    assert(0 <= wk <= 255 ==> (wk as u8) as i32 == wk) by (bit_vector);
    assert(w.drop_last().len() == 0);
    assert(be_value(w) == r.workers as u8 as nat) by {
        reveal_with_fuel(be_value, 2);
    }
}


/// A frame survives decoding: its type and payload come back.
pub proof fn lemma_frame_round_trip(t: u8, payload: Seq<u8>)
    requires
        payload.len() <= u32::MAX,
    ensures
        frame_parse(frame_of(t, payload)) == Ok::<(u8, Seq<u8>), FrameError>((t, payload)),
{
    let f = frame_of(t, payload);
    assert(f.subrange(4, 8) == be32(payload.len()));
    lemma_be32_value(payload.len());
    assert(f.subrange(8, f.len() as int) == payload);
}

/// The payload of a verify request: task id, nonce, then redirect.
pub open spec fn verify_request_payload(task_id: Seq<u8>, nonce: Seq<u8>, redirect: Seq<u8>) -> Seq<u8> {
    tlv_of(TLV_TASK_ID, task_id) + tlv_of(TLV_NONCE, nonce) + tlv_of(TLV_REDIRECT, redirect)
}

/// A task-request frame asking to come back to `redirect`.
pub fn encode_task_request(redirect: &[u8]) -> (r: Vec<u8>)
    ensures
        r@ == frame_of(FRAME_TYPE_TASK_REQUEST, tlv_of(TLV_REDIRECT, redirect@)),
{
    let payload = append_tlv(Vec::new(), TLV_REDIRECT, redirect);
    assert(Seq::<u8>::empty() + tlv_of(TLV_REDIRECT, redirect@) == tlv_of(TLV_REDIRECT, redirect@));
    encode_frame(FRAME_TYPE_TASK_REQUEST, payload)
}

/// A masked verify-request frame naming a task, a nonce and a redirect.
pub fn encode_verify_request(task_id: &[u8], nonce: &[u8], redirect: &[u8]) -> (r: Vec<u8>)
    ensures
        r@ == masked(frame_of(FRAME_TYPE_VERIFY_REQUEST, verify_request_payload(task_id@, nonce@, redirect@)), xor_key()),
{
    let mut payload = append_tlv(Vec::new(), TLV_TASK_ID, task_id);
    payload = append_tlv(payload, TLV_NONCE, nonce);
    payload = append_tlv(payload, TLV_REDIRECT, redirect);
    assert(payload@ == verify_request_payload(task_id@, nonce@, redirect@));
    let mut frame = encode_frame(FRAME_TYPE_VERIFY_REQUEST, payload);
    let key = xor_key_bytes();
    deobfuscate_frame(&mut frame, key.as_slice());
    frame
}

/// The entries of a verify-request payload, when each value fits.
pub proof fn lemma_verify_request_entries(task_id: Seq<u8>, nonce: Seq<u8>, redirect: Seq<u8>)
    requires
        task_id.len() <= 65535,
        nonce.len() <= 65535,
        redirect.len() <= 65535,
    ensures
        tlv_parse(verify_request_payload(task_id, nonce, redirect)) == Ok::<Seq<(u8, Seq<u8>)>, FrameError>(
            seq![(TLV_TASK_ID, task_id), (TLV_NONCE, nonce), (TLV_REDIRECT, redirect)],
        ),
        tlv_lookup(seq![(TLV_TASK_ID, task_id), (TLV_NONCE, nonce), (TLV_REDIRECT, redirect)], TLV_TASK_ID) == Some(task_id),
        tlv_lookup(seq![(TLV_TASK_ID, task_id), (TLV_NONCE, nonce), (TLV_REDIRECT, redirect)], TLV_NONCE) == Some(nonce),
        tlv_lookup(seq![(TLV_TASK_ID, task_id), (TLV_NONCE, nonce), (TLV_REDIRECT, redirect)], TLV_REDIRECT) == Some(redirect),
{
    let t3 = tlv_of(TLV_REDIRECT, redirect);
    let t2 = tlv_of(TLV_NONCE, nonce) + t3;
    let t1 = tlv_of(TLV_TASK_ID, task_id) + t2;
    assert(verify_request_payload(task_id, nonce, redirect) == t1);
    assert(tlv_parse(Seq::<u8>::empty()) == Ok::<Seq<(u8, Seq<u8>)>, FrameError>(Seq::empty()));
    assert(t3 + Seq::<u8>::empty() == t3);
    lemma_tlv_parse_cons(TLV_REDIRECT, redirect, Seq::empty());
    assert(seq![(TLV_REDIRECT, redirect)] + Seq::<(u8, Seq<u8>)>::empty() == seq![(TLV_REDIRECT, redirect)]);
    lemma_tlv_parse_cons(TLV_NONCE, nonce, t3);
    lemma_tlv_parse_cons(TLV_TASK_ID, task_id, t2);
    let f = seq![(TLV_TASK_ID, task_id), (TLV_NONCE, nonce), (TLV_REDIRECT, redirect)];
    assert(seq![(TLV_NONCE, nonce)] + seq![(TLV_REDIRECT, redirect)] == f.subrange(1, 3));
    assert(seq![(TLV_TASK_ID, task_id)] + f.subrange(1, 3) == f);
    lemma_tlv_lookup_unique(f, 0);
    lemma_tlv_lookup_unique(f, 1);
    lemma_tlv_lookup_unique(f, 2);
}

} // verus!
