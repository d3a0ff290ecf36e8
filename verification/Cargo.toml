[package]
name = "keylight"
version = "0.1.0"
edition = "2021"
publish = false

[dependencies]
concurrent-queue = "*"
dashmap = "*"
css-color-parser = "*"
openrgb = "*"
tokio = { version = "*", features = ["rt", "rt-multi-thread", "macros", "time", "net", "sync"] }
serde_json = "*"
log = "*"
env_logger = "*"
signal-hook = "*"
rand = "*"
