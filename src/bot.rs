//! Recognising search-engine crawlers by user agent and by the host name
//! their address resolves to.
use vstd::prelude::*;
use vstd::utf8::*;
use crate::bytes_text::text_from_bytes;
use crate::frame::text_of;
use crate::text::{ascii_lower, contains, ends_with, has_infix, has_suffix, to_ascii_lower, trim, trimmed};
use crate::token::{strip_char_end, strip_end};

verus! {

/// Whether a user agent claims to be Googlebot, in any ASCII case.
pub open spec fn claims_googlebot(ua: Seq<char>) -> bool {
    trimmed(ua).len() > 0 && has_infix(ascii_lower(encode_utf8(trimmed(ua))), encode_utf8("googlebot"@))
}

/// Whether a user agent claims to be Googlebot.
pub fn ua_matches_bot(ua: &str) -> (r: bool)
    ensures
        r == claims_googlebot(ua@),
{
    let t = trim(ua);
    if t.unicode_len() == 0 {
        return false;
    }
    let lower = to_ascii_lower(t.as_bytes());
    contains(lower.as_slice(), "googlebot".as_bytes())
}

/// A reverse-lookup name without its trailing dots, lower-cased.
pub fn normalize_ptr(ptr: &str) -> (r: String)
    ensures
        r@ == text_of(ascii_lower(encode_utf8(strip_end(ptr@, '.')))),
{
    let t = strip_char_end(ptr, '.');
    let lower = to_ascii_lower(t.as_bytes());
    text_from_bytes(lower.as_slice())
}

/// Whether a host name lies under Google's crawler domains.
pub fn ptr_allowed(ptr: &str) -> (r: bool)
    ensures
        r == (has_suffix(encode_utf8(ptr@), encode_utf8(".googlebot.com"@))
            || has_suffix(encode_utf8(ptr@), encode_utf8(".google.com"@))),
{
    ends_with(ptr.as_bytes(), ".googlebot.com".as_bytes()) || ends_with(ptr.as_bytes(), ".google.com".as_bytes())
}

} // verus!
