//! The io_uring driver.

pub mod driver;
pub mod laws;
pub mod model;
pub mod op;
pub mod queue;
