//! A verified core for a daily work-log recorder.
//!
//! Log entries are kept in per-day partitions and summarised over date
//! ranges by a text-generation backend.  This crate holds the parts with
//! real invariants: the partition ledger, the date arithmetic, the JSON
//! codec for partitions and backend messages, and the summary pipeline's
//! decisions.  File and network transport live outside the crate and hand
//! plain values in and out.

pub mod backend;
pub mod clock;
pub mod codec;
pub mod date;
pub mod entry;
pub mod errors;
pub mod json;
pub mod pipeline;
pub mod settings;
pub mod store;
pub mod text;
