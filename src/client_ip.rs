//! Where a request's client address comes from: one resolution for logs and
//! rules, and a separate one, under the binding policy, for tasks and
//! cookies.
use vstd::prelude::*;
use crate::config::IpPolicy;
use crate::text::{trim, trimmed};

verus! {

/// Which source gave the address used for logs and rules.
#[derive(Debug, Clone, Copy, PartialEq, Eq, Structural)]
pub enum IpSource {
    ClientIp,
    XForwardedFor,
    XRealIp,
}

impl IpSource {
    /// The source's name in logs.
    pub fn get_string(&self) -> (r: String)
        ensures
            r@ == match *self {
                IpSource::ClientIp => "client_ip"@,
                IpSource::XForwardedFor => "x_forwarded_for"@,
                IpSource::XRealIp => "x_real_ip"@,
            },
    {
        match self {
            IpSource::ClientIp => String::from_str("client_ip"),
            IpSource::XForwardedFor => String::from_str("x_forwarded_for"),
            IpSource::XRealIp => String::from_str("x_real_ip"),
        }
    }
}

/// The index of the first `,` in `s`, or its length.
pub open spec fn first_comma(s: Seq<char>) -> int
    decreases s.len(),
{
    if s.len() == 0 {
        0
    } else if s[0] == ',' {
        0
    } else {
        1 + first_comma(s.subrange(1, s.len() as int))
    }
}

/// The first item of a comma-separated header value, trimmed; `None` when
/// it is empty.
pub open spec fn first_item(v: Seq<char>) -> Option<Seq<char>> {
    let t = trimmed(v.subrange(0, first_comma(v)));
    if t.len() == 0 {
        None
    } else {
        Some(t)
    }
}

proof fn lemma_first_comma_bounds(s: Seq<char>)
    ensures
        0 <= first_comma(s) <= s.len(),
    decreases s.len(),
{
    if s.len() > 0 && s[0] != ',' {
        lemma_first_comma_bounds(s.subrange(1, s.len() as int));
    }
}

/// The first item of a comma-separated header value, trimmed.
pub fn header_ip(value: &str) -> (r: Option<String>)
    ensures
        match (r, first_item(value@)) {
            (Some(a), Some(b)) => a@ == b,
            (None, None) => true,
            _ => false,
        },
{
    let n = value.unicode_len();
    let mut i: usize = 0;
    proof {
        lemma_first_comma_bounds(value@);
        assert(value@.subrange(0, n as int) == value@);
    }
    while i < n && value.get_char(i) != ','
        invariant
            n == value@.len(),
            0 <= i <= n,
            first_comma(value@) == i + first_comma(value@.subrange(i as int, n as int)),
        decreases n - i,
    {
        let ghost rest = value@.subrange(i as int, n as int);
        assert(rest.subrange(1, rest.len() as int) == value@.subrange(i + 1, n as int));
        i = i + 1;
    }
    proof {
        let rest = value@.subrange(i as int, n as int);
        if i < n {
            assert(rest[0] == ',');
        }
    }
    let t = trim(value.substring_char(0, i));
    if t.unicode_len() == 0 {
        None
    } else {
        Some(t.to_owned())
    }
}

/// The address for logs and rules: the first item of `X-Real-IP`, then of
/// `X-Forwarded-For`, else the peer address (empty when unknown).
pub open spec fn request_ip(x_real_ip: Option<Seq<char>>, x_forwarded_for: Option<Seq<char>>, peer: Seq<char>) -> (Seq<char>, IpSource) {
    if x_real_ip matches Some(v) && first_item(v) is Some {
        (first_item(x_real_ip->0)->0, IpSource::XRealIp)
    } else if x_forwarded_for matches Some(v) && first_item(v) is Some {
        (first_item(x_forwarded_for->0)->0, IpSource::XForwardedFor)
    } else {
        (peer, IpSource::ClientIp)
    }
}

fn opt_view(o: Option<&str>) -> (r: Option<String>)
    ensures
        match (r, o) {
            (Some(a), Some(b)) => match first_item(b@) {
                Some(t) => a@ == t,
                None => false,
            },
            (None, Some(b)) => first_item(b@) is None,
            (None, None) => true,
            _ => false,
        },
{
    match o {
        Some(v) => header_ip(v),
        None => None,
    }
}

/// The address for logs and rules, and where it came from.
pub fn resolve_request_ip(x_real_ip: Option<&str>, x_forwarded_for: Option<&str>, peer: &str) -> (r: (String, IpSource))
    ensures
        (r.0@, r.1) == request_ip(
            match x_real_ip { Some(v) => Some(v@), None => None },
            match x_forwarded_for { Some(v) => Some(v@), None => None },
            peer@,
        ),
{
    if let Some(ip) = opt_view(x_real_ip) {
        return (ip, IpSource::XRealIp);
    }
    if let Some(ip) = opt_view(x_forwarded_for) {
        return (ip, IpSource::XForwardedFor);
    }
    (peer.to_owned(), IpSource::ClientIp)
}

/// The address a task or cookie is bound to: none when binding is off;
/// under `Enable` the first item of `X-Forwarded-For`, then of
/// `X-Real-IP`, else the peer; under `Strict` the peer alone.
pub open spec fn binding_ip(policy: IpPolicy, x_forwarded_for: Option<Seq<char>>, x_real_ip: Option<Seq<char>>, peer: Seq<char>) -> Seq<char> {
    match policy {
        IpPolicy::Disabled => Seq::empty(),
        IpPolicy::Enable => if x_forwarded_for matches Some(v) && first_item(v) is Some {
            first_item(x_forwarded_for->0)->0
        } else if x_real_ip matches Some(v) && first_item(v) is Some {
            first_item(x_real_ip->0)->0
        } else {
            peer
        },
        IpPolicy::Strict => peer,
    }
}

/// The address a task or cookie is bound to under `policy`.
pub fn extract_client_ip(policy: IpPolicy, x_forwarded_for: Option<&str>, x_real_ip: Option<&str>, peer: &str) -> (r: String)
    ensures
        r@ == binding_ip(
            policy,
            match x_forwarded_for { Some(v) => Some(v@), None => None },
            match x_real_ip { Some(v) => Some(v@), None => None },
            peer@,
        ),
{
    match policy {
        IpPolicy::Disabled => String::new(),
        IpPolicy::Enable => {
            if let Some(ip) = opt_view(x_forwarded_for) {
                return ip;
            }
            if let Some(ip) = opt_view(x_real_ip) {
                return ip;
            }
            peer.to_owned()
        },
        IpPolicy::Strict => peer.to_owned(),
    }
}

} // verus!
