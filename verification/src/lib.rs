//! A personal time-tracking ledger: an append-only log of start and stop
//! events, the validated operations that extend it, and the replay that turns
//! it into running sessions and per-day totals.

pub mod corrections;
pub mod days;
pub mod domain;
pub mod error;
pub mod ident;
pub mod ledger;
pub mod ledgers;
pub mod replay;
pub mod slicing;
pub mod snapshot;
pub mod text;
pub mod time;
pub mod totals;
pub mod zone;
