//! Buffer pools.

pub mod bitset;
pub mod blocks;
pub mod buddy;
pub mod fixed_buf;
pub mod free_list;
pub mod hybrid;
pub mod laws;
pub mod pool;
