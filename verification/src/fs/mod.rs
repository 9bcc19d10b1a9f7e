//! Files.

pub mod file;
pub mod open_options;
