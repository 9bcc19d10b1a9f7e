//! Socket addresses in the form that system calls take.

pub mod sockaddr;
pub mod unix;
pub mod windows;
