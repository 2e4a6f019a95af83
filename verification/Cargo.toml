[package]
name = "voidframe"
version = "0.1.0"
edition = "2021"
publish = false

[dependencies]
sha2 = "0.10"
serde = { version = "1", features = ["derive"] }
serde_json = "1"
csv = "1"
uuid = { version = "1", features = ["v4"] }
dirs = "5"
clap = { version = "4", features = ["derive"] }
anyhow = "1"
thiserror = "1"
regex = "1"
