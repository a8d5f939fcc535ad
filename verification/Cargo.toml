[package]
name = "octaindex3d"
version = "0.5.6"
edition = "2021"
publish = false

[dependencies]
bech32 = "=0.11.1"
lz4_flex = "=0.11.6"
zstd = "=0.13.4"
crc32fast = "=1.5.4"
sha2 = "=0.10.9"
clap = { version = "=4.6.7", features = ["derive"] }
anyhow = "=1.0.104"
serde = { version = "=1.0.229", features = ["derive"] }
serde_json = "=1.0.154"
rand = "=0.10.3"
crossterm = "=0.29.0"
dirs = "=7.0.0"
rayon = "1"
