//! Batch runs: which downloads run, when, and what follows them.

pub mod checksum;
pub mod engine;
pub mod executor;
pub mod post_action;
pub mod scheduler;
