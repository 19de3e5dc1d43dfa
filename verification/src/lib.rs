//! Process-level transparent proxying: routing rules, connection tracking,
//! the SOCKS5 and HTTP CONNECT handshakes, and the per-packet decisions, each
//! with a contract that Verus proves.
//!
//! The proofs trust the contracts of a few outside functions: the base64 crate's
//! `Engine::encode`, behind a wrapper in `proxy::http`, and of the standard
//! library `String::push`, `str::to_uppercase`, `std::str::from_utf8`,
//! `Instant::now`, `Instant::elapsed` and `Duration::as_nanos`.

pub mod addr;
pub mod cli;
pub mod cli_laws;
pub mod config;
pub mod connection;
pub mod netfilter;
pub mod packet;
pub mod packet_laws;
pub mod pattern;
pub mod pattern_laws;
pub mod process;
pub mod process_laws;
pub mod proxy;
pub mod relay;
pub mod rule;
pub mod rule_laws;
pub mod rule_text;
pub mod sock_diag;
pub mod text;
pub mod text_laws;
