[package]
name = "crdt_canvas"
version = "0.1.0"
edition = "2021"
publish = false

[dependencies]
axum = { version = "=0.7.9", features = ["ws"] }
clap = { version = "=4.6.7", features = ["derive"] }
local-ip-address = "=0.6.13"
mdns-sd = "=0.11.5"
rand = "=0.8.8"
rust-embed = { version = "=8.13.0", features = ["interpolate-folder-path", "mime-guess"] }
serde = { version = "=1.0.229", features = ["derive"] }
serde_json = "=1.0.154"
tokio = { version = "=1.54.1", features = ["full"] }
tower-http = { version = "=0.5.2", features = ["cors"] }
tracing = "=0.1.44"
tracing-subscriber = { version = "=0.3.23", features = ["env-filter"] }
uuid = { version = "=1.29.0", features = ["v4", "serde"] }
