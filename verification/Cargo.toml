[package]
name = "rack_director"
version = "0.1.0"
edition = "2021"
publish = false

[dependencies]
anyhow = "*"
axum = "*"
axum-extra = "*"
chrono = "*"
clap = { version = "*", features = ["derive"] }
ipnet = "*"
log = "*"
rand = "*"
rusqlite = { version = "*", features = ["bundled"] }
serde = { version = "*", features = ["derive"] }
serde_json = "*"
tokio = { version = "*", features = ["full"] }
