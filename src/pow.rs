//! The proof-of-work puzzle: SHA-256 over a canonical preimage must start
//! with at least `bits` zero bits.
use vstd::prelude::*;
use vstd::utf8::*;
use crate::bytes_text::push_all;
use crate::crypto::{sha256, sha256_of};
use crate::task_store::Task;

verus! {

/// Decimal digits of `n`.
pub open spec fn digits_of(n: nat) -> Seq<u8>
    decreases n,
{
    if n < 10 {
        seq![(48 + n) as u8]
    } else {
        digits_of(n / 10) + seq![(48 + n % 10) as u8]
    }
}

/// Base-10 text of `n`, with a leading `-` when negative.
pub open spec fn decimal_of(n: int) -> Seq<u8> {
    if n < 0 {
        seq![45u8] + digits_of((-n) as nat)
    } else {
        digits_of(n as nat)
    }
}

/// The digest input `v1|{seed}|{exp}|{bits}|{scope}|{ua_hash}|{nonce}`.
pub open spec fn pow_preimage_of(
    seed: Seq<char>,
    exp: i64,
    bits: u32,
    scope: Seq<char>,
    ua_hash: Seq<char>,
    nonce: Seq<char>,
) -> Seq<u8> {
    seq![118u8, 49, 124] + encode_utf8(seed) + seq![124u8] + decimal_of(exp as int) + seq![124u8]
        + decimal_of(bits as int) + seq![124u8] + encode_utf8(scope) + seq![124u8] + encode_utf8(ua_hash)
        + seq![124u8] + encode_utf8(nonce)
}

/// The number of leading zero bits of a nonzero byte.
pub open spec fn byte_leading_zeros(b: u8) -> nat {
    if b >= 128 {
        0
    } else if b >= 64 {
        1
    } else if b >= 32 {
        2
    } else if b >= 16 {
        3
    } else if b >= 8 {
        4
    } else if b >= 4 {
        5
    } else if b >= 2 {
        6
    } else if b >= 1 {
        7
    } else {
        8
    }
}

/// The number of consecutive zero bits at the start of `h`, most
/// significant bit of each byte first.
pub open spec fn leading_zero_bits(h: Seq<u8>) -> nat
    decreases h.len(),
{
    if h.len() == 0 {
        0
    } else if h[0] == 0 {
        8 + leading_zero_bits(h.subrange(1, h.len() as int))
    } else {
        byte_leading_zeros(h[0])
    }
}

/// Whether `nonce` solves `task`.
pub open spec fn pow_solves(task: Task, nonce: Seq<char>) -> bool {
    leading_zero_bits(
        sha256_of(pow_preimage_of(task.seed.0@, task.exp, task.bits, task.scope.0@, task.ua_hash.0@, nonce)),
    ) >= task.bits
}

fn push_digits(buf: &mut Vec<u8>, n: u64)
    ensures
        final(buf)@ == old(buf)@ + digits_of(n as nat),
    decreases n,
{
    if n >= 10 {
        push_digits(buf, n / 10);
    }
    buf.push(48 + (n % 10) as u8);
    assert(final(buf)@ == old(buf)@ + digits_of(n as nat));
}

/// Appends the base-10 text of `n`.
pub fn push_decimal(buf: &mut Vec<u8>, n: i64)
    ensures
        final(buf)@ == old(buf)@ + decimal_of(n as int),
{
    if n < 0 {
        buf.push(45);
        let m: u64 = (-(n + 1)) as u64 + 1;
        push_digits(buf, m);
        assert(final(buf)@ == old(buf)@ + decimal_of(n as int));
    } else {
        push_digits(buf, n as u64);
    }
}

/// The digest input for `task` and `nonce`.
pub fn pow_preimage(task: &Task, nonce: &str) -> (r: Vec<u8>)
    ensures
        r@ == pow_preimage_of(task.seed.0@, task.exp, task.bits, task.scope.0@, task.ua_hash.0@, nonce@),
{
    let mut buf: Vec<u8> = Vec::new();
    buf.push(118);
    buf.push(49);
    buf.push(124);
    push_all(&mut buf, task.seed.0.as_str().as_bytes());
    buf.push(124);
    push_decimal(&mut buf, task.exp);
    buf.push(124);
    push_decimal(&mut buf, task.bits as i64);
    buf.push(124);
    push_all(&mut buf, task.scope.0.as_str().as_bytes());
    buf.push(124);
    push_all(&mut buf, task.ua_hash.0.as_str().as_bytes());
    buf.push(124);
    push_all(&mut buf, nonce.as_bytes());
    buf
}

fn byte_zeros(b: u8) -> (r: u64)
    ensures
        r == byte_leading_zeros(b),
{
    if b >= 128 {
        0
    } else if b >= 64 {
        1
    } else if b >= 32 {
        2
    } else if b >= 16 {
        3
    } else if b >= 8 {
        4
    } else if b >= 4 {
        5
    } else if b >= 2 {
        6
    } else if b >= 1 {
        7
    } else {
        8
    }
}

/// Counts the zero bits at the start of `hash`, across byte boundaries.
/// The count of a slice's bits must fit a u64.
pub fn count_leading_zero_bits(hash: &[u8]) -> (r: u64)
    requires
        hash@.len() < 0x2000_0000_0000_0000,
    ensures
        r == leading_zero_bits(hash@),
{
    let mut count: u64 = 0;
    let mut i: usize = 0;
    assert(hash@.subrange(0, hash@.len() as int) == hash@);
    while i < hash.len()
        invariant
            0 <= i <= hash@.len(),
            hash@.len() < 0x2000_0000_0000_0000,
            count == 8 * i,
            leading_zero_bits(hash@) == count + leading_zero_bits(hash@.subrange(i as int, hash@.len() as int)),
        decreases hash@.len() - i,
    {
        let ghost rest = hash@.subrange(i as int, hash@.len() as int);
        assert(rest[0] == hash@[i as int]);
        assert(rest.subrange(1, rest.len() as int) == hash@.subrange(i + 1, hash@.len() as int));
        if hash[i] != 0 {
            return count + byte_zeros(hash[i]);
        }
        count = count + 8;
        i = i + 1;
    }
    assert(hash@.subrange(i as int, hash@.len() as int).len() == 0);
    count
}

/// Whether `digest` starts with at least `bits` zero bits.
pub fn meets_difficulty(digest: &[u8], bits: u32) -> (r: bool)
    requires
        digest@.len() < 0x2000_0000_0000_0000,
    ensures
        r == (leading_zero_bits(digest@) >= bits),
{
    count_leading_zero_bits(digest) >= bits as u64
}

/// Whether `nonce` solves `task`: the SHA-256 of the canonical preimage
/// starts with at least `task.bits` zero bits.
pub fn verify_pow(task: &Task, nonce: &str) -> (r: bool)
    ensures
        r == pow_solves(*task, nonce@),
{
    let pre = pow_preimage(task, nonce);
    let digest = sha256(pre.as_slice());
    meets_difficulty(digest.as_slice(), task.bits)
}

} // verus!
