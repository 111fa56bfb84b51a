[package]
name = "codex_lcm"
version = "0.1.0"
edition = "2021"
publish = false

[dependencies]
sha2 = "0.10"
serde = { version = "1", features = ["derive"] }
serde_json = "1"
thiserror = "2"
schemars = "0.8"
reqwest = { version = "0.12", default-features = false, features = ["json"] }
