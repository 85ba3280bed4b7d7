[package]
name = "nmbrs_runtime"
version = "0.1.0"
edition = "2021"
publish = false

[dependencies]
arc-swap = "1"
indexmap = "2"
inventory = "0.3"
serde = { version = "1", features = ["derive"] }
serde_json = "1"
tokio = { version = "1", features = ["macros", "rt", "sync", "time"] }
