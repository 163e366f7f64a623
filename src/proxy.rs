//! Forwarding an admitted request to the origin: where it goes and which
//! headers are rewritten.
use vstd::prelude::*;

verus! {

/// The origin, as scheme and authority.
#[derive(Debug, Clone)]
pub struct ProxyTarget {
    pub scheme: String,
    pub authority: String,
}

/// The header changes for a forwarded request: `Host` is always replaced;
/// `X-Forwarded-Host` and `X-Forwarded-Proto` are set only when absent.
#[derive(Debug, Clone)]
pub struct HeaderRewrite {
    pub host: String,
    pub x_forwarded_host: Option<String>,
    pub x_forwarded_proto: Option<String>,
}

/// The origin URI for a request: the target's scheme and authority with
/// the request's path and query.
pub fn build_target_uri(target: &ProxyTarget, path_and_query: &str) -> (r: String)
    ensures
        r@ == target.scheme@ + "://"@ + target.authority@ + path_and_query@,
{
    let mut out = target.scheme.clone();
    out.append("://");
    out.append(target.authority.as_str());
    out.append(path_and_query);
    out
}

/// The header changes for a request that already has, or lacks,
/// `X-Forwarded-Host` and `X-Forwarded-Proto`.
pub fn rewrite_headers(target: &ProxyTarget, has_forwarded_host: bool, has_forwarded_proto: bool) -> (r: HeaderRewrite)
    ensures
        r.host@ == target.authority@,
        has_forwarded_host ==> r.x_forwarded_host is None,
        !has_forwarded_host ==> (r.x_forwarded_host matches Some(h) && h@ == target.authority@),
        has_forwarded_proto ==> r.x_forwarded_proto is None,
        !has_forwarded_proto ==> (r.x_forwarded_proto matches Some(p) && p@ == target.scheme@),
{
    HeaderRewrite {
        host: target.authority.clone(),
        x_forwarded_host: if has_forwarded_host { None } else { Some(target.authority.clone()) },
        x_forwarded_proto: if has_forwarded_proto { None } else { Some(target.scheme.clone()) },
    }
}

} // verus!
