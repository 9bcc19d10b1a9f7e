//! Queues between threads.

pub mod deque;
pub mod queue;
