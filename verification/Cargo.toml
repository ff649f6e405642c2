[package]
name = "vsd"
version = "0.1.0"
edition = "2021"
publish = false

[dependencies]
anyhow = "1"
clap = { version = "4", features = ["derive"] }
cookie = "0.18"
kdam = "*"
requestty = "*"
reqwest = { version = "0.12", default-features = false, features = ["blocking", "cookies"] }
serde = { version = "1", features = ["derive"] }
serde_json = "1"
