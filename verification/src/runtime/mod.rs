//! Workers: what they run, and how they reach each other.

pub mod builder;
pub mod context;
pub mod executor;
pub mod mesh;
pub mod task;
