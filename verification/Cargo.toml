[package]
name = "furumi"
version = "0.1.0"
edition = "2021"
publish = false

[dependencies]
base64 = "*"
chrono = "*"
slab = "*"
serde = { version = "*", features = ["derive"] }
reqwest = { version = "*", default-features = false, features = ["json"] }
tokio = { version = "*", features = ["rt-multi-thread", "macros", "sync"] }
polyfuse = "0.3"
polyfuse-tokio = "*"
clap = "*"
log = "*"
env_logger = "*"
