[package]
name = "xharness"
version = "0.1.0"
edition = "2021"
publish = false

[dependencies]
sha2 = "0.10"
serde = { version = "1", features = ["derive"] }
serde_json = "1"
thiserror = "1"
tokio = { version = "1", features = ["sync", "time", "process", "rt", "rt-multi-thread", "io-util", "macros"] }
nix = { version = "0.29", features = ["signal", "process"] }
