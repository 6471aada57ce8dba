[package]
name = "raft"
version = "0.1.0"
edition = "2021"
publish = false

[dependencies]
anyhow = "1"
clap = { version = "4", features = ["derive"] }
futures = "0.3"
itertools = "0.12"
prost = "0.12"
rand = "0.8"
tokio = { version = "1", features = ["full"] }
