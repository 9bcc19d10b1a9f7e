//! The completion port driver.

pub mod blocking;
pub mod driver;
pub mod laws;
pub mod op;
pub mod submit;
