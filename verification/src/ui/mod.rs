//! What the windows show, and what they do.

pub mod backend;
pub mod gui;
pub mod registry_bridge;
pub mod tui;
