[package]
name = "pgstatdiff"
version = "0.1.0"
edition = "2021"
publish = false

[dependencies]
anyhow = "1"
chrono = { version = "0.4", features = ["serde"] }
clap = { version = "4", features = ["derive"] }
postgres = { version = "0.19", features = ["with-chrono-0_4"] }
serde = { version = "1", features = ["derive"] }
serde_json = "1"
thiserror = "2"
