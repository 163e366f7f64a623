//! A proof-of-work gatekeeper for HTTP services: the wire codec of the
//! challenge protocol, the proof-of-work check, the admission token, the
//! one-shot task store, the rules engine and the per-request admission decision.
pub mod bot;
pub mod bytes_text;
pub mod challenge;
pub mod client_ip;
pub mod config;
pub mod crypto;
pub mod encoding;
pub mod frame;
pub mod gate;
pub mod page;
pub mod pow;
pub mod proxy;
pub mod rules;
pub mod task_store;
pub mod text;
pub mod token;
