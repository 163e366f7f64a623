//! The settings of the proof-of-work front door, their defaults and their checks.
use vstd::prelude::*;
use crate::rules::RuleAction;
use crate::text::{trim, trimmed};

verus! {

/// Whether and how a challenge is bound to the client's address.
#[derive(Debug, Clone, Copy, PartialEq, Eq, Structural)]
pub enum IpPolicy {
    Disabled,
    Enable,
    Strict,
}

#[derive(Debug, Clone)]
pub struct ServerConfig {
    pub listen: String,
}

#[derive(Debug, Clone)]
pub struct PowConfig {
    pub difficulty: i32,
    pub cookie_expire_hours: i64,
    pub salt: String,
    pub workers: i32,
    pub worker_type: String,
    pub ip_policy: IpPolicy,
    pub test_mode: bool,
    pub secure: bool,
}

#[derive(Debug, Clone)]
pub struct ProxyConfig {
    pub target: String,
}

/// A header predicate as configured.
#[derive(Debug, Clone)]
pub struct HeaderMatch {
    pub name: String,
    pub equals: Option<String>,
    pub contains: Option<String>,
}

/// One rule as configured.
#[derive(Debug, Clone)]
pub struct RuleConfig {
    pub name: Option<String>,
    pub action: RuleAction,
    pub difficulty_delta: Option<i32>,
    pub path_prefix: Option<String>,
    pub path_exact: Option<String>,
    pub header: Option<HeaderMatch>,
    pub ip_cidr: Option<Vec<String>>,
}

#[derive(Debug, Clone)]
pub struct RulesConfig {
    pub enabled: bool,
    pub default_action: RuleAction,
    pub rule: Vec<RuleConfig>,
}

#[derive(Debug, Clone)]
pub struct Config {
    pub server: ServerConfig,
    pub pow: PowConfig,
    pub proxy: ProxyConfig,
    pub rules: RulesConfig,
}

/// Why a configuration was refused.
#[derive(Debug, Clone, Copy, PartialEq, Eq, Structural)]
pub enum ConfigError {
    DifficultyOutOfRange,
    WorkersOutOfRange,
    UnknownWorkerType,
}

impl Default for IpPolicy {
    fn default() -> (r: IpPolicy)
        ensures
            r == IpPolicy::Disabled,
    {
        IpPolicy::Disabled
    }
}

impl Default for ServerConfig {
    fn default() -> (r: ServerConfig)
        ensures
            r.listen@ == "0.0.0.0:8080"@,
    {
        ServerConfig { listen: String::from_str("0.0.0.0:8080") }
    }
}

impl Default for PowConfig {
    fn default() -> (r: PowConfig)
        ensures
            r.difficulty == 3,
            r.cookie_expire_hours == 24,
            r.salt@ == Seq::<char>::empty(),
            r.workers == 4,
            r.worker_type@ == "wasm"@,
            r.ip_policy == IpPolicy::Disabled,
            !r.test_mode,
            !r.secure,
    {
        PowConfig {
            difficulty: 3,
            cookie_expire_hours: 24,
            salt: String::new(),
            workers: 4,
            worker_type: String::from_str("wasm"),
            ip_policy: IpPolicy::Disabled,
            test_mode: false,
            secure: false,
        }
    }
}

impl Default for ProxyConfig {
    fn default() -> (r: ProxyConfig)
        ensures
            r.target@ == "http://127.0.0.1:1234"@,
    {
        ProxyConfig { target: String::from_str("http://127.0.0.1:1234") }
    }
}

impl Default for RulesConfig {
    fn default() -> (r: RulesConfig)
        ensures
            !r.enabled,
            r.default_action == RuleAction::Challenge,
            r.rule@.len() == 0,
    {
        RulesConfig { enabled: false, default_action: RuleAction::Challenge, rule: Vec::new() }
    }
}

impl Default for RuleConfig {
    fn default() -> (r: RuleConfig)
        ensures
            r.name is None,
            r.action == RuleAction::Challenge,
            r.difficulty_delta is None,
            r.path_prefix is None,
            r.path_exact is None,
            r.header is None,
            r.ip_cidr is None,
    {
        RuleConfig {
            name: None,
            action: RuleAction::Challenge,
            difficulty_delta: None,
            path_prefix: None,
            path_exact: None,
            header: None,
            ip_cidr: None,
        }
    }
}

impl Default for Config {
    fn default() -> (r: Config)
        ensures
            r.server.listen@ == "0.0.0.0:8080"@,
            r.pow.difficulty == 3,
            r.pow.cookie_expire_hours == 24,
            r.pow.salt@ == Seq::<char>::empty(),
            r.pow.workers == 4,
            r.pow.worker_type@ == "wasm"@,
            r.pow.ip_policy == IpPolicy::Disabled,
            !r.pow.test_mode,
            !r.pow.secure,
            r.proxy.target@ == "http://127.0.0.1:1234"@,
            !r.rules.enabled,
            r.rules.default_action == RuleAction::Challenge,
            r.rules.rule@.len() == 0,
    {
        Config {
            server: ServerConfig::default(),
            pow: PowConfig::default(),
            proxy: ProxyConfig::default(),
            rules: RulesConfig::default(),
        }
    }
}

impl Config {
    /// Puts the default back into each setting left blank or not positive:
    /// the listen address, the cookie lifetime, the worker count and the
    /// worker kind. The difficulty is kept as configured: 0 turns gating off.
    pub fn apply_defaults(&mut self)
        ensures
            final(self).server.listen@ == if trimmed(old(self).server.listen@).len() == 0 {
                "0.0.0.0:8080"@
            } else {
                old(self).server.listen@
            },
            final(self).pow.difficulty == old(self).pow.difficulty,
            final(self).pow.cookie_expire_hours == if old(self).pow.cookie_expire_hours <= 0 {
                24
            } else {
                old(self).pow.cookie_expire_hours
            },
            final(self).pow.workers == if old(self).pow.workers <= 0 { 4 } else { old(self).pow.workers },
            final(self).pow.worker_type@ == if trimmed(old(self).pow.worker_type@).len() == 0 {
                "wasm"@
            } else {
                old(self).pow.worker_type@
            },
            final(self).pow.salt == old(self).pow.salt,
            final(self).pow.ip_policy == old(self).pow.ip_policy,
            final(self).pow.test_mode == old(self).pow.test_mode,
            final(self).pow.secure == old(self).pow.secure,
            final(self).proxy == old(self).proxy,
            final(self).rules == old(self).rules,
    {
        if trim(self.server.listen.as_str()).unicode_len() == 0 {
            self.server.listen = String::from_str("0.0.0.0:8080");
        }
        if self.pow.cookie_expire_hours <= 0 {
            self.pow.cookie_expire_hours = 24;
        }
        if self.pow.workers <= 0 {
            self.pow.workers = 4;
        }
        if trim(self.pow.worker_type.as_str()).unicode_len() == 0 {
            self.pow.worker_type = String::from_str("wasm");
        }
    }

    /// Checks the ranges: difficulty in `0..=10`, workers in `1..=8`, and a
    /// worker kind of `wasm` or `native`, in that order.
    pub fn validate(&self) -> (r: Result<(), ConfigError>)
        ensures
            r == if self.pow.difficulty < 0 || self.pow.difficulty > 10 {
                Err(ConfigError::DifficultyOutOfRange)
            } else if self.pow.workers < 1 || self.pow.workers > 8 {
                Err(ConfigError::WorkersOutOfRange)
            } else if self.pow.worker_type@ != "wasm"@ && self.pow.worker_type@ != "native"@ {
                Err(ConfigError::UnknownWorkerType)
            } else {
                Ok(())
            },
    {
        if self.pow.difficulty < 0 || self.pow.difficulty > 10 {
            return Err(ConfigError::DifficultyOutOfRange);
        }
        if self.pow.workers < 1 || self.pow.workers > 8 {
            return Err(ConfigError::WorkersOutOfRange);
        }
        let w = self.pow.worker_type.as_str();
        if !crate::bytes_text::str_eq(w, "wasm") && !crate::bytes_text::str_eq(w, "native") {
            return Err(ConfigError::UnknownWorkerType);
        }
        Ok(())
    }
}

} // verus!
