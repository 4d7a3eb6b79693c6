//! Persistence.
//!
//! Raw events go to an immutable, append-only, compressed log (`segment`).
//! Everything that wants querying or rewriting, such as session metadata, health
//! and context, stays in small human-readable files beside it.

pub mod run;
pub mod segment;
pub mod session;
pub mod writer;
