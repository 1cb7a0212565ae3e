[package]
name = "porep_labels"
version = "0.1.0"
edition = "2021"
publish = false

[dependencies]
sha2raw = { version = "*", default-features = false }
byte-unit = "4.0"
merkletree = "*"
anyhow = "1"
log = "0.4"
serde = { version = "1", features = ["derive"] }
serde_json = "1"
bincode = "1"
