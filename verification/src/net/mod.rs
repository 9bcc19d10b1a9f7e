//! Sockets.

pub mod bind;
pub mod tcp;
pub mod udp;
