[package]
name = "curver_backend"
version = "0.1.0"
edition = "2021"
publish = false

[dependencies]
actix = "0.13"
actix-web = "4"
actix-web-actors = "4"
clap = { version = "4", features = ["derive"] }
parking_lot = "0.12"
rand = "0.8"
ratatui = "0.24"
serde = { version = "1", features = ["derive"] }
serde_json = "1"
tokio = { version = "1", features = ["macros", "rt-multi-thread", "sync", "time"] }
uuid = { version = "1", features = ["v4"] }
