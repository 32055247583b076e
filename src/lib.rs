//! Frame-paced sequential reads: a storage stress model that reads one
//! frame's worth of bytes per frame slot and counts missed deadlines.
pub mod schedule;
pub mod pipeline;
pub mod session;
pub mod config;
pub mod rate_text;
