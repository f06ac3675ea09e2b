[package]
name = "tokenlist"
version = "0.1.0"
edition = "2021"
publish = false

[dependencies]
anyhow = "1"
chrono = { version = "0.4", features = ["serde"] }
clap = { version = "4", features = ["derive"] }
futures = "0.3"
reqwest = "0.12"
serde = { version = "1", features = ["derive"] }
serde_json = "1"
solana-program = "*"
tokio = { version = "1", features = ["macros", "rt-multi-thread"] }
toml = "0.8"
url = { version = "2", features = ["serde"] }
