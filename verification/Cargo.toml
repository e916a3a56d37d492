[package]
name = "workhorse"
version = "0.1.0"
edition = "2021"
publish = false

[dependencies]
git2 = "*"
serde = { version = "*", features = ["derive"] }
serde_json = "*"
tokio = { version = "*", features = ["rt-multi-thread", "process", "io-util", "fs", "sync", "time"] }

[dev-dependencies]
tempfile = "*"
