[package]
name = "database"
version = "0.1.0"
edition = "2021"
publish = false

[dependencies]
tsz = "0.1"
tokio = "0.1"
futures = "0.1"
rand = "0.6"
bincode = "1"
serde = { version = "1", features = ["derive"] }
