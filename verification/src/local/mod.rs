//! Channels inside one event loop.

pub mod mpsc;
