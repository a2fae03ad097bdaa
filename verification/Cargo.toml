[package]
name = "bootty_app"
version = "0.1.0"
edition = "2021"
publish = false

[dependencies]
anyhow = "=1.0.104"
arboard = "=3.7.0"
clap = { version = "=4.6.7", features = ["derive"] }
mlua = { version = "=0.12.2", features = ["luau"] }
notify = "=8.2.1"
png = "=0.18.1"
rustix = { version = "=1.1.6", features = ["fs", "process"] }
serde = { version = "=1.0.229", features = ["derive"] }
serde_json = { version = "=1.0.154", features = ["float_roundtrip"] }
