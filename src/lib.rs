//! Race several candidate endpoints, keep the first connection that answers,
//! and hand it to exactly one consumer.
//!
//! The modules hold the decisions of a run as state machines over plain
//! values; the caller performs the I/O they ask for and reports back.

pub mod arbitration;
pub mod dialer;
pub mod race;
pub mod bridge;
pub mod transfer;
pub mod target;
