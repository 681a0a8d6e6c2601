//! Deadline-aware block scheduling for a multiplexed transport connection.
pub mod bignat;
pub mod block;
pub mod dtp_scheduler;
pub mod laws;
pub mod weight;

pub use block::{has_pending_id, Block};
pub use dtp_scheduler::{DtpScheduler, DtpVariant, Scheduler, SelectError};
