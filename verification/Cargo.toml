[package]
name = "localdb_core"
version = "0.1.0"
edition = "2021"
publish = false

[dependencies]
async-trait = "0.1"
blake3 = "1"
chrono = "0.4"
directories = "*"
dirs = "*"
globset = "0.4"
hex = "0.4"
pulldown-cmark = "*"
rand = "0.8"
rusqlite = { version = "*", features = ["bundled"] }
serde = { version = "1", features = ["derive"] }
serde_json = "1"
serde_yaml = "0.9"
sha2 = "0.10"
text-splitter = { version = "*", features = ["markdown"] }
thiserror = "1"
tokio = { version = "1", features = ["full"] }
tracing = "0.1"
ulid = "1"
url = "2"
