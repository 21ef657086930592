[package]
name = "rps_lobby"
version = "0.1.0"
edition = "2021"
publish = false

[dependencies]
rand = "0.8"
tokio = { version = "1", features = ["sync", "rt-multi-thread", "macros", "net"] }
warp = "0.3"
serde = { version = "1", features = ["derive"] }
serde_json = "1"
futures = "0.3"
log = "0.4"
pretty_env_logger = "0.5"
