[package]
name = "agentbus"
version = "0.1.0"
edition = "2021"
publish = false

[dependencies]
chrono = "0.4"
serde_json = "1"
serde = { version = "1", features = ["derive"] }
serde_yaml = "0.9"
rusqlite = "*"
tokio = { version = "1", features = ["rt", "time", "macros", "sync"] }
rand = "*"
colored = "*"
rustyline = "*"
anyhow = "1"
thiserror = "*"
clap = { version = "4", features = ["derive", "env"] }
futures = "0.3"
tracing = "0.1"
bytes = "1"
