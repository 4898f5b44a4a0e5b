//! A work-in-progress tracker built on an append-only event log.
//!
//! The log is an ordered sequence of timestamped operation records; the
//! current stack of work items is never stored, only reconstructed by
//! replaying the log from the beginning.

pub mod codec;
pub mod digits;
pub mod item;
pub mod laws;
pub mod log;
pub mod op;
pub mod render;
pub mod text;

pub use crate::item::Item;
pub use crate::log::{LoadError, WIP};
pub use crate::op::{Op, Payload, ReplayError};
