//! The HTTP download engine: byte ranges, resume snapshots, probing, throttling.

pub mod beat;
pub mod manager;
pub mod plan;
pub mod probe;
pub mod rate_limit;
pub mod resources;
pub mod segment;
pub mod session;
