[package]
name = "rinit_core"
version = "0.1.0"
edition = "2021"
publish = false

[dependencies]
anyhow = "*"
async-pidfd = "*"
chrono = "*"
clap = { version = "*", features = ["derive"] }
nix = { version = "*", features = ["user", "signal"] }
serde = { version = "*", features = ["derive"] }
serde_json = "*"
tokio = { version = "*", features = ["rt-multi-thread", "macros", "process", "net", "io-util", "fs", "sync", "time"] }
