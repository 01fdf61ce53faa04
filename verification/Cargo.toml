[package]
name = "warp"
version = "0.3.0"
edition = "2021"
publish = false

[dependencies]
anyhow = "1"
async-trait = "0.1"
axum = "0.8"
bincode = "1.3"
chrono = "0.4"
clap = { version = "4", features = ["derive"] }
crossterm = "0.28"
directories = "6"
egui = { version = "0.31", default-features = false }
futures-util = "0.3"
hex = "0.4"
indicatif = "0.17"
m3u8-rs = "6"
parking_lot = "0.12"
pcap = "2"
pnet = "0.35"
ratatui = "0.29"
regex = "1"
reqwest = { version = "0.12", default-features = false, features = ["rustls-tls", "stream", "blocking"] }
serde = { version = "1", features = ["derive"] }
serde_json = "1"
sha2 = "0.10"
sqlx = { version = "0.8", default-features = false, features = ["runtime-tokio", "sqlite", "macros"] }
sysinfo = "0.33"
tokio = { version = "1", features = ["full"] }
tokio-util = "0.7"
url = "2"
