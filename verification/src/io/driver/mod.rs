//! Drivers: bookkeeping of in-flight operations.

pub mod iocp;
pub mod op_registry;
pub mod platform;
pub mod stable_slab;
pub mod uring;

pub use platform::PlatformOp;
