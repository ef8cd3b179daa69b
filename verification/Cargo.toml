[package]
name = "pumpkin_level"
version = "0.1.0"
edition = "2021"
publish = false

[dependencies]
dashmap = "6.1"
log = "0.4"
num-traits = "0.2"
tokio = { version = "1", features = ["macros", "rt", "sync"] }
tokio-util = { version = "0.7", features = ["rt"] }
