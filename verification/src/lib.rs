//! Warp: the verified core of a segmented download manager.

use vstd::prelude::*;

pub mod cli;
pub mod clock;
pub mod daemon;
pub mod download;
pub mod download_registry;
pub mod downloader;
pub mod float;
pub mod gui;
pub mod hls;
pub mod interceptor;
pub mod metrics;
pub mod number;
pub mod path;
pub mod pipeline;
pub mod scan;
pub mod speed;
pub mod stream;
pub mod table;
pub mod text;
pub mod types;
pub mod ui;
pub mod utils;
pub mod wire;

verus! {

} // verus!
