//! I/O layer: buffers, operations, sockets and drivers.

pub mod buffer;
pub mod driver;
pub mod local_op;
pub mod op;
pub mod port_op;
pub mod remote_op;
pub mod socket;
