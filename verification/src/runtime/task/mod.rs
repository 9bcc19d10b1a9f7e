//! Tasks: their lifecycle and the handles to them.

pub mod harness;
pub mod pinned;
