//! Captured network requests: parsing, filtering, and signs of streams.

pub mod capture;
pub mod example;
pub mod filter;
pub mod npcap_check;
pub mod parser;
pub mod signal;
pub mod types;
