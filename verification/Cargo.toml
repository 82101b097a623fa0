[package]
name = "changeset_core"
version = "0.1.0"
edition = "2021"
publish = false

[dependencies]
blake3 = { version = "1", default-features = false, features = ["pure", "std"] }
chrono = { version = "0.4", features = ["serde"] }
serde = { version = "1", features = ["derive"] }
serde_json = "1"
serde-aux = "*"
thiserror = "1"
comfy-table = "*"
indicatif = "*"
derive_builder = "*"
