[package]
name = "sabi"
version = "0.1.0"
edition = "2021"
publish = false

[dependencies]
uuid = { version = "1", features = ["v4", "v7", "serde"] }
crc32fast = "1"
regex = "1"
serde = { version = "1", features = ["derive"] }
serde_json = "1"
sqlparser = "*"
sha2 = "0.10"
tokio = { version = "1", features = ["full"] }
axum = { version = "0.8", features = ["ws"] }
tower-http = { version = "0.6", features = ["trace"] }
tracing = "0.1"
tracing-subscriber = "0.3"
clap = { version = "4", features = ["derive"] }
futures = "0.3"
bytes = "1"
rustyline = "*"
thiserror = "2"
