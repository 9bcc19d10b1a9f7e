//! Core of a thread-per-core asynchronous runtime.

pub mod config;
pub mod error;
pub mod fs;
pub mod io;
pub mod local;
pub mod net;
pub mod poll;
pub mod runtime;
pub mod sync;
pub mod text;
