[package]
name = "llm_harness"
version = "0.1.0"
edition = "2021"
publish = false

[dependencies]
serde = { version = "1", features = ["derive"] }
serde_json = "1"
uuid = { version = "1", features = ["v7"] }
chrono = { version = "0.4", features = ["serde"] }
thiserror = "2"
anyhow = "1"
tokio = { version = "1", features = ["full"] }
tokio-util = "0.7"
futures = "0.3"
async-trait = "0.1"
async-stream = "0.3"
dirs-next = "2"
atty = "0.2"
rustyline = "*"
regex = "1"
globset = "0.4"
ignore = "0.4"

[dev-dependencies]
tempfile = "3"
