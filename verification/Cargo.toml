[package]
name = "forge_agent"
version = "0.1.0"
edition = "2021"
publish = false

[dependencies]
petgraph = "*"
serde = { version = "1", features = ["derive"] }
serde_json = "1"
sha2 = "*"
uuid = { version = "1", features = ["v4", "serde"] }
chrono = { version = "0.4", features = ["serde"] }
thiserror = "*"
anyhow = "1"
async-trait = "*"
tokio = { version = "1", features = ["full"] }
tracing = "*"
sqlitegraph = "*"
