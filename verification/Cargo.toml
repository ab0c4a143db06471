[package]
name = "micro_blossom"
version = "0.1.0"
edition = "2021"
publish = false

[dependencies]
fusion-blossom = "0.2"
clap = { version = "4", features = ["derive", "cargo"] }
serde = { version = "1", features = ["derive"] }
serde_json = "1"
lazy_static = "1"
cfg-if = "1"
