//! The rules engine: an ordered list of predicates over the path, one
//! header and the client address, where the first matching rule decides.
use vstd::prelude::*;
use vstd::arithmetic::power2::pow2;
use vstd::utf8::*;
use crate::bytes_text::bytes_eq;
use crate::config::{HeaderMatch, RuleConfig, RulesConfig};
use crate::text::{ascii_lower, contains, has_infix, has_prefix, starts_with, to_ascii_lower, trim, trimmed};

verus! {

/// What a rule, or the default, decides.
#[derive(Debug, Clone, Copy, PartialEq, Eq, Structural)]
pub enum RuleAction {
    Allow,
    Block,
    Challenge,
}

/// The action of the matching rule and its difficulty delta.
#[derive(Debug, Clone, Copy, PartialEq, Eq, Structural)]
pub struct RuleDecision {
    pub action: RuleAction,
    pub difficulty_delta: i32,
}

/// A client address: IPv4 as a 32-bit number, IPv6 as a 128-bit number.
#[derive(Debug, Clone, Copy, PartialEq, Eq, Structural)]
pub enum IpAddress {
    V4(u32),
    V6(u128),
}

/// A network: its family, its address as a number, and its prefix length.
#[derive(Debug, Clone, Copy, PartialEq, Eq, Structural)]
pub struct IpNetwork {
    pub v6: bool,
    pub addr: u128,
    pub prefix_len: u8,
}

/// One header of a request: its lower-case name and its value, absent when
/// the value is not visible ASCII text.
#[derive(Debug, Clone)]
pub struct RequestHeader {
    pub name: String,
    pub value: Option<String>,
}

/// A compiled header predicate.
#[derive(Debug, Clone)]
pub struct HeaderPredicate {
    pub name: String,
    pub equals: Option<String>,
    pub contains: Option<String>,
}

/// The predicates of one rule; those that are absent always hold.
#[derive(Debug, Clone)]
pub struct Matcher {
    pub path_prefix: Option<String>,
    pub path_exact: Option<String>,
    pub header: Option<HeaderPredicate>,
    pub ip_nets: Vec<IpNetwork>,
}

/// A compiled rule.
#[derive(Debug, Clone)]
pub struct Rule {
    pub name: Option<String>,
    pub action: RuleAction,
    pub difficulty_delta: i32,
    pub matcher: Matcher,
}

/// The compiled rules, in configured order, and the default action.
#[derive(Debug, Clone)]
pub struct RulesEngine {
    pub enabled: bool,
    pub default_action: RuleAction,
    pub rules: Vec<Rule>,
}

/// Why the rules could not be compiled.
#[derive(Debug, Clone, Copy, PartialEq, Eq, Structural)]
pub enum RulesError {
    InvalidCidr,
    EmptyHeaderName,
    HeaderWithoutCondition,
}

/// The network that a CIDR text denotes, as family, address and prefix.
pub uninterp spec fn cidr_of(s: Seq<char>) -> Option<(bool, u128, u8)>;

impl IpNetwork {
    /// The address fits the family and the prefix is no longer than it.
    pub open spec fn wf(&self) -> bool {
        if self.v6 {
            self.prefix_len <= 128
        } else {
            self.prefix_len <= 32 && self.addr < 0x1_0000_0000
        }
    }
}

/// Relies on `ipnet::IpNet`'s `FromStr`: a network keeps the address as
/// written, and its prefix is at most the family's width.
#[verifier::external_body]
fn parse_cidr(s: &str) -> (r: Option<IpNetwork>)
    ensures
        match r {
            Some(n) => cidr_of(s@) == Some((n.v6, n.addr, n.prefix_len)) && n.wf(),
            None => cidr_of(s@) is None,
        },
{
    match s.parse::<ipnet::IpNet>() {
        Ok(ipnet::IpNet::V4(n)) => Some(IpNetwork { v6: false, addr: u32::from(n.addr()) as u128, prefix_len: n.prefix_len() }),
        Ok(ipnet::IpNet::V6(n)) => Some(IpNetwork { v6: true, addr: u128::from(n.addr()), prefix_len: n.prefix_len() }),
        Err(_) => None,
    }
}

/// Whether network `n` holds address `ip`: same family, and the first
/// `prefix_len` bits agree.
pub open spec fn net_contains(n: IpNetwork, ip: IpAddress) -> bool {
    match ip {
        IpAddress::V4(a) => !n.v6 && (n.prefix_len == 0 || a as nat / pow2((32 - n.prefix_len) as nat) == n.addr as nat
            / pow2((32 - n.prefix_len) as nat)),
        IpAddress::V6(a) => n.v6 && (n.prefix_len == 0 || a as nat / pow2((128 - n.prefix_len) as nat) == n.addr as nat
            / pow2((128 - n.prefix_len) as nat)),
    }
}

/// Whether network `n` holds address `ip`.
pub fn network_contains(n: &IpNetwork, ip: &IpAddress) -> (r: bool)
    requires
        n.wf(),
    ensures
        r == net_contains(*n, *ip),
{
    match ip {
        IpAddress::V4(a) => {
            if n.v6 {
                return false;
            }
            if n.prefix_len == 0 {
                return true;
            }
            let shift: u128 = (32 - n.prefix_len) as u128;
            let x = *a as u128;
            proof {
                vstd::bits::lemma_u128_shr_is_div(x, shift);
                vstd::bits::lemma_u128_shr_is_div(n.addr, shift);
            }
            (x >> shift) == (n.addr >> shift)
        },
        IpAddress::V6(a) => {
            if !n.v6 {
                return false;
            }
            if n.prefix_len == 0 {
                return true;
            }
            let shift: u128 = (128 - n.prefix_len) as u128;
            proof {
                vstd::bits::lemma_u128_shr_is_div(*a, shift);
                vstd::bits::lemma_u128_shr_is_div(n.addr, shift);
            }
            (*a >> shift) == (n.addr >> shift)
        },
    }
}

/// The value of the first header named `name`, if there is one.
pub open spec fn first_header(hs: Seq<RequestHeader>, name: Seq<u8>) -> Option<Option<Seq<char>>>
    decreases hs.len(),
{
    if hs.len() == 0 {
        None
    } else if encode_utf8(hs[0].name@) == name {
        Some(
            match hs[0].value {
                Some(v) => Some(v@),
                None => None,
            },
        )
    } else {
        first_header(hs.subrange(1, hs.len() as int), name)
    }
}

/// Whether a header predicate holds: the header is present with a text
/// value, and that value equals `equals`, else contains `contains`, both
/// compared without ASCII case.
pub open spec fn header_matches(p: HeaderPredicate, hs: Seq<RequestHeader>) -> bool {
    match first_header(hs, ascii_lower(encode_utf8(p.name@))) {
        Some(Some(v)) => {
            let vl = ascii_lower(encode_utf8(v));
            match p.equals {
                Some(e) => vl == ascii_lower(encode_utf8(e@)),
                None => match p.contains {
                    Some(c) => has_infix(vl, ascii_lower(encode_utf8(c@))),
                    None => true,
                },
            }
        },
        _ => false,
    }
}

/// Whether every predicate of `m` holds.
pub open spec fn matcher_matches(m: Matcher, path: Seq<char>, hs: Seq<RequestHeader>, ip: Option<IpAddress>) -> bool {
    &&& (m.path_prefix matches Some(p) ==> has_prefix(encode_utf8(path), encode_utf8(p@)))
    &&& (m.path_exact matches Some(e) ==> path == e@)
    &&& (m.header matches Some(h) ==> header_matches(h, hs))
    &&& (m.ip_nets@.len() > 0 ==> (ip matches Some(a) && exists|j: int|
        0 <= j < m.ip_nets@.len() && net_contains(#[trigger] m.ip_nets@[j], a)))
}

/// The first rule of `rules` that matches.
pub open spec fn first_matching(rules: Seq<Rule>, path: Seq<char>, hs: Seq<RequestHeader>, ip: Option<IpAddress>) -> Option<Rule>
    decreases rules.len(),
{
    if rules.len() == 0 {
        None
    } else if matcher_matches(rules[0].matcher, path, hs, ip) {
        Some(rules[0])
    } else {
        first_matching(rules.subrange(1, rules.len() as int), path, hs, ip)
    }
}

/// What the engine decides: nothing when disabled; else the first matching
/// rule's action and delta; else the default action with delta 0.
pub open spec fn evaluation(e: RulesEngine, path: Seq<char>, hs: Seq<RequestHeader>, ip: Option<IpAddress>) -> Option<RuleDecision> {
    if !e.enabled {
        None
    } else {
        match first_matching(e.rules@, path, hs, ip) {
            Some(r) => Some(RuleDecision { action: r.action, difficulty_delta: r.difficulty_delta }),
            None => Some(RuleDecision { action: e.default_action, difficulty_delta: 0 }),
        }
    }
}

impl RulesEngine {
    /// Every network in the rules is well formed.
    pub open spec fn wf(&self) -> bool {
        forall|i: int, j: int|
            0 <= i < self.rules@.len() && 0 <= j < self.rules@[i].matcher.ip_nets@.len()
                ==> (#[trigger] self.rules@[i].matcher.ip_nets@[j]).wf()
    }
}

/// Whether a header predicate holds for the request's headers.
pub fn header_predicate_matches(p: &HeaderPredicate, headers: &[RequestHeader]) -> (r: bool)
    ensures
        r == header_matches(*p, headers@),
{
    let want = to_ascii_lower(p.name.as_str().as_bytes());
    let mut i: usize = 0;
    assert(headers@.subrange(0, headers@.len() as int) == headers@);
    while i < headers.len()
        invariant
            0 <= i <= headers@.len(),
            want@ == ascii_lower(encode_utf8(p.name@)),
            first_header(headers@, want@) == first_header(headers@.subrange(i as int, headers@.len() as int), want@),
        decreases headers@.len() - i,
    {
        let ghost rest = headers@.subrange(i as int, headers@.len() as int);
        assert(rest[0] == headers@[i as int]);
        assert(rest.subrange(1, rest.len() as int) == headers@.subrange(i + 1, headers@.len() as int));
        if bytes_eq(headers[i].name.as_str().as_bytes(), want.as_slice()) {
            let value = match &headers[i].value {
                Some(v) => v,
                None => return false,
            };
            let vl = to_ascii_lower(value.as_str().as_bytes());
            return match &p.equals {
                Some(e) => {
                    let el = to_ascii_lower(e.as_str().as_bytes());
                    bytes_eq(vl.as_slice(), el.as_slice())
                },
                None => match &p.contains {
                    Some(c) => {
                        let cl = to_ascii_lower(c.as_str().as_bytes());
                        contains(vl.as_slice(), cl.as_slice())
                    },
                    None => true,
                },
            };
        }
        i = i + 1;
    }
    false
}

/// Whether some network of `nets` holds `ip`.
fn any_network_contains(nets: &Vec<IpNetwork>, ip: &IpAddress) -> (r: bool)
    requires
        forall|k: int| 0 <= k < nets@.len() ==> (#[trigger] nets@[k]).wf(),
    ensures
        r == exists|k: int| 0 <= k < nets@.len() && net_contains(#[trigger] nets@[k], *ip),
{
    let mut j: usize = 0;
    while j < nets.len()
        invariant
            0 <= j <= nets@.len(),
            forall|k: int| 0 <= k < nets@.len() ==> (#[trigger] nets@[k]).wf(),
            forall|k: int| 0 <= k < j ==> !net_contains(#[trigger] nets@[k], *ip),
        decreases nets@.len() - j,
    {
        if network_contains(&nets[j], ip) {
            assert(net_contains(nets@[j as int], *ip));
            return true;
        }
        j = j + 1;
    }
    false
}

/// Whether every predicate of a rule holds.
pub fn matcher_is_match(m: &Matcher, path: &str, headers: &[RequestHeader], client_ip: Option<IpAddress>) -> (r: bool)
    requires
        forall|j: int| 0 <= j < m.ip_nets@.len() ==> (#[trigger] m.ip_nets@[j]).wf(),
    ensures
        r == matcher_matches(*m, path@, headers@, client_ip),
{
    if let Some(prefix) = &m.path_prefix {
        if !starts_with(path.as_bytes(), prefix.as_str().as_bytes()) {
            return false;
        }
    }
    if let Some(exact) = &m.path_exact {
        if !crate::bytes_text::str_eq(path, exact.as_str()) {
            return false;
        }
    }
    if let Some(predicate) = &m.header {
        if !header_predicate_matches(predicate, headers) {
            return false;
        }
    }
    if m.ip_nets.len() > 0 {
        let ip = match client_ip {
            Some(ip) => ip,
            None => return false,
        };
        return any_network_contains(&m.ip_nets, &ip);
    }
    true
}

impl RulesEngine {
    /// The decision for a request: `None` when rules are disabled; else the
    /// first matching rule's action and delta, in configured order; else
    /// the default action with delta 0.
    pub fn evaluate(&self, path: &str, headers: &[RequestHeader], client_ip: Option<IpAddress>) -> (r: Option<RuleDecision>)
        requires
            self.wf(),
        ensures
            r == evaluation(*self, path@, headers@, client_ip),
    {
        if !self.enabled {
            return None;
        }
        let mut i: usize = 0;
        assert(self.rules@.subrange(0, self.rules@.len() as int) == self.rules@);
        while i < self.rules.len()
            invariant
                0 <= i <= self.rules@.len(),
                self.wf(),
                self.enabled,
                first_matching(self.rules@, path@, headers@, client_ip)
                    == first_matching(self.rules@.subrange(i as int, self.rules@.len() as int), path@, headers@, client_ip),
            decreases self.rules@.len() - i,
        {
            let ghost rest = self.rules@.subrange(i as int, self.rules@.len() as int);
            assert(rest[0] == self.rules@[i as int]);
            assert(rest.subrange(1, rest.len() as int) == self.rules@.subrange(i + 1, self.rules@.len() as int));
            let rule = &self.rules[i];
            assert forall|j: int| 0 <= j < rule.matcher.ip_nets@.len() implies (#[trigger] rule.matcher.ip_nets@[j]).wf() by {
                assert(self.rules@[i as int].matcher.ip_nets@[j] == rule.matcher.ip_nets@[j]);
            }
            if matcher_is_match(&rule.matcher, path, headers, client_ip) {
                assert(first_matching(rest, path@, headers@, client_ip) == Some(rest[0]));
                return Some(RuleDecision { action: rule.action, difficulty_delta: rule.difficulty_delta });
            }
            i = i + 1;
        }
        Some(RuleDecision { action: self.default_action, difficulty_delta: 0 })
    }
}

/// `value` limited to `0..=10`.
pub open spec fn clamped(value: int) -> int {
    if value < 0 {
        0
    } else if value > 10 {
        10
    } else {
        value
    }
}

/// `value` limited to `0..=10`.
pub fn clamp_difficulty(value: i32) -> (r: i32)
    ensures
        r == clamped(value as int),
{
    if value < 0 {
        0
    } else if value > 10 {
        10
    } else {
        value
    }
}

/// The difficulty of a challenge rule: the base plus the rule's delta,
/// limited to `0..=10`.
pub fn effective_difficulty(base: i32, delta: i32) -> (r: i32)
    ensures
        r == clamped(base as int + delta as int),
{
    let sum: i64 = base as i64 + delta as i64;
    if sum < 0 {
        0
    } else if sum > 10 {
        10
    } else {
        sum as i32
    }
}


/// The first problem with a header predicate as configured, if any.
pub open spec fn header_error(h: HeaderMatch) -> Option<RulesError> {
    if trimmed(h.name@).len() == 0 {
        Some(RulesError::EmptyHeaderName)
    } else if h.equals is None && h.contains is None {
        Some(RulesError::HeaderWithoutCondition)
    } else {
        None
    }
}

/// The first problem with a rule as configured: a network that does not
/// parse, then a bad header predicate.
pub open spec fn rule_error(c: RuleConfig) -> Option<RulesError> {
    if c.ip_cidr matches Some(v) && exists|j: int| 0 <= j < v@.len() && cidr_of((#[trigger] v@[j])@) is None {
        Some(RulesError::InvalidCidr)
    } else {
        match c.header {
            Some(h) => header_error(h),
            None => None,
        }
    }
}

/// The problem with the first faulty rule, if any.
pub open spec fn first_rule_error(rules: Seq<RuleConfig>) -> Option<RulesError>
    decreases rules.len(),
{
    if rules.len() == 0 {
        None
    } else if rule_error(rules[0]) is Some {
        rule_error(rules[0])
    } else {
        first_rule_error(rules.subrange(1, rules.len() as int))
    }
}

/// Whether `r` is the compiled form of the configured rule `c`.
pub open spec fn compiled_from(r: Rule, c: RuleConfig) -> bool {
    &&& r.name == c.name
    &&& r.action == c.action
    &&& r.difficulty_delta == match c.difficulty_delta {
        Some(d) => d,
        None => 0,
    }
    &&& r.matcher.path_prefix == c.path_prefix
    &&& r.matcher.path_exact == c.path_exact
    &&& match (r.matcher.header, c.header) {
        (Some(p), Some(h)) => p.name@ == trimmed(h.name@) && p.equals == h.equals && p.contains == h.contains,
        (None, None) => true,
        _ => false,
    }
    &&& match c.ip_cidr {
        Some(v) => r.matcher.ip_nets@.len() == v@.len() && forall|j: int| 0 <= j < v@.len()
            ==> cidr_of((#[trigger] v@[j])@) == Some(
                (r.matcher.ip_nets@[j].v6, r.matcher.ip_nets@[j].addr, r.matcher.ip_nets@[j].prefix_len),
            ),
        None => r.matcher.ip_nets@.len() == 0,
    }
}

fn clone_text(o: &Option<String>) -> (r: Option<String>)
    ensures
        r == *o,
{
    match o {
        Some(s) => Some(s.clone()),
        None => None,
    }
}

/// Parses each configured network.
fn parse_ip_nets(values: &Vec<String>) -> (r: Result<Vec<IpNetwork>, RulesError>)
    ensures
        match r {
            Ok(nets) => nets@.len() == values@.len() && (forall|j: int| 0 <= j < values@.len()
                ==> cidr_of((#[trigger] values@[j])@) == Some((nets@[j].v6, nets@[j].addr, nets@[j].prefix_len)))
                && (forall|j: int| 0 <= j < nets@.len() ==> (#[trigger] nets@[j]).wf()),
            Err(e) => e == RulesError::InvalidCidr && exists|j: int| 0 <= j < values@.len() && cidr_of((#[trigger] values@[j])@) is None,
        },
{
    let mut nets: Vec<IpNetwork> = Vec::new();
    let mut i: usize = 0;
    while i < values.len()
        invariant
            0 <= i <= values@.len(),
            nets@.len() == i,
            forall|j: int| 0 <= j < i ==> cidr_of((#[trigger] values@[j])@) == Some((nets@[j].v6, nets@[j].addr, nets@[j].prefix_len)),
            forall|j: int| 0 <= j < i ==> (#[trigger] nets@[j]).wf(),
        decreases values@.len() - i,
    {
        match parse_cidr(values[i].as_str()) {
            Some(n) => nets.push(n),
            None => {
                assert(cidr_of(values@[i as int]@) is None);
                return Err(RulesError::InvalidCidr);
            },
        }
        i = i + 1;
    }
    Ok(nets)
}

/// Compiles a configured header predicate: the name is trimmed and must not
/// be empty, and `equals` or `contains` must be set.
pub fn to_header_predicate(match_cfg: &HeaderMatch) -> (r: Result<HeaderPredicate, RulesError>)
    ensures
        match header_error(*match_cfg) {
            Some(e) => r == Err::<HeaderPredicate, RulesError>(e),
            None => r matches Ok(p) && p.name@ == trimmed(match_cfg.name@) && p.equals == match_cfg.equals
                && p.contains == match_cfg.contains,
        },
{
    let name = trim(match_cfg.name.as_str());
    if name.unicode_len() == 0 {
        return Err(RulesError::EmptyHeaderName);
    }
    if match_cfg.equals.is_none() && match_cfg.contains.is_none() {
        return Err(RulesError::HeaderWithoutCondition);
    }
    Ok(HeaderPredicate {
        name: name.to_owned(),
        equals: clone_text(&match_cfg.equals),
        contains: clone_text(&match_cfg.contains),
    })
}

fn compile_rule(c: &RuleConfig) -> (r: Result<Rule, RulesError>)
    ensures
        match rule_error(*c) {
            Some(e) => r == Err::<Rule, RulesError>(e),
            None => r matches Ok(rule) && compiled_from(rule, *c) && forall|j: int|
                0 <= j < rule.matcher.ip_nets@.len() ==> (#[trigger] rule.matcher.ip_nets@[j]).wf(),
        },
{
    let ip_nets = match &c.ip_cidr {
        Some(v) => match parse_ip_nets(v) {
            Ok(nets) => nets,
            Err(e) => return Err(e),
        },
        None => Vec::new(),
    };
    let header = match &c.header {
        Some(h) => match to_header_predicate(h) {
            Ok(p) => Some(p),
            Err(e) => return Err(e),
        },
        None => None,
    };
    let difficulty_delta: i32 = match c.difficulty_delta {
        Some(d) => d,
        None => 0,
    };
    let rule = Rule {
        name: clone_text(&c.name),
        action: c.action,
        difficulty_delta,
        matcher: Matcher {
            path_prefix: clone_text(&c.path_prefix),
            path_exact: clone_text(&c.path_exact),
            header,
            ip_nets,
        },
    };
    Ok(rule)
}

impl RulesEngine {
    /// Compiles the configured rules in order; the first faulty rule's
    /// problem is the error.
    pub fn from_config(cfg: &RulesConfig) -> (r: Result<RulesEngine, RulesError>)
        ensures
            match first_rule_error(cfg.rule@) {
                Some(e) => r == Err::<RulesEngine, RulesError>(e),
                None => r matches Ok(engine) && engine.wf() && engine.enabled == cfg.enabled
                    && engine.default_action == cfg.default_action && engine.rules@.len() == cfg.rule@.len()
                    && forall|i: int| 0 <= i < cfg.rule@.len() ==> compiled_from(#[trigger] engine.rules@[i], cfg.rule@[i]),
            },
    {
        let mut rules: Vec<Rule> = Vec::new();
        let mut i: usize = 0;
        assert(cfg.rule@.subrange(0, cfg.rule@.len() as int) == cfg.rule@);
        while i < cfg.rule.len()
            invariant
                0 <= i <= cfg.rule@.len(),
                rules@.len() == i,
                first_rule_error(cfg.rule@) == first_rule_error(cfg.rule@.subrange(i as int, cfg.rule@.len() as int)),
                forall|k: int| 0 <= k < i ==> compiled_from(#[trigger] rules@[k], cfg.rule@[k]),
                forall|k: int, j: int| 0 <= k < i && 0 <= j < rules@[k].matcher.ip_nets@.len()
                    ==> (#[trigger] rules@[k].matcher.ip_nets@[j]).wf(),
            decreases cfg.rule@.len() - i,
        {
            let ghost rest = cfg.rule@.subrange(i as int, cfg.rule@.len() as int);
            assert(rest[0] == cfg.rule@[i as int]);
            assert(rest.subrange(1, rest.len() as int) == cfg.rule@.subrange(i + 1, cfg.rule@.len() as int));
            match compile_rule(&cfg.rule[i]) {
                Ok(rule) => rules.push(rule),
                Err(e) => return Err(e),
            }
            i = i + 1;
        }
        let engine = RulesEngine { enabled: cfg.enabled, default_action: cfg.default_action, rules };
        Ok(engine)
    }
}

} // verus!
