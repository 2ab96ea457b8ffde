//! Payment intermediary core: time-indexed aggregate stores, the in-flight
//! tracker, upstream selection with failover, and peer-federated summaries.
//!
//! Timestamps are microseconds since the Unix epoch (`i64`) and amounts are
//! integer cents (`u64`); conversion from dates and decimal numbers happens
//! at the edge of the program.
pub mod db;
pub mod dispatch;
pub mod inflight;
pub mod ledger;
pub mod summary;
pub mod window;

pub use db::Db;
pub use dispatch::{Outcome, Processor};
pub use inflight::Inflight;
pub use ledger::Ledger;
pub use summary::{ProcessorSummaries, Summary};
