//! Verified core of a log-driven intrusion blocker: per-format log line
//! classifiers, the time-windowed offence ledger, and the dispatch step
//! that routes a line from its source to a parser and the ledger.

pub mod addr;
pub mod clf;
pub mod dispatch;
pub mod generic;
pub mod jail;
pub mod json;
pub mod pattern;
pub mod sshd;
pub mod text;
pub mod utils;
