[package]
name = "open_rust_map"
version = "0.1.0"
edition = "2021"
publish = false

[dependencies]
geo = "*"
osmpbfreader = "*"
clap = { version = "*", features = ["derive"] }
config = "*"
serde = { version = "*", features = ["derive"] }
serde_json = "*"
snafu = "*"
time = "*"
tokio = { version = "*", features = ["sync", "macros", "rt-multi-thread"] }
tracing = "*"
