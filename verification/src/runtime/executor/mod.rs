//! What a worker runs, and how work reaches it.

pub mod delivery;
pub mod laws;
pub mod local;
pub mod parking;
pub mod shared;
pub mod spawner;
pub mod turn;
