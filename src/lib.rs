//! Movement-deduplicating position journal.
//!
//! Incoming position fixes are compared against the last accepted one; fixes
//! that did not move far enough are suppressed, accepted ones are framed as
//! newline-terminated journal entries, and on restart the last entry of the
//! journal is located by a backward scan so that filtering resumes where it
//! stopped.
pub mod position;
pub mod filter;
pub mod journal;
pub mod service;
