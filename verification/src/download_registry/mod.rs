//! The queue of downloads: how entries are stored, found, ordered and changed.

pub mod entries;
pub mod json;
pub mod registry;
pub mod repository;
