//! The log node: one append-only log for each topic, with the offset up to
//! which its readers have committed.

pub mod handler;
pub mod log;
