[package]
name = "vectoros"
version = "0.1.0"
edition = "2021"
publish = false

[dependencies]
serde = { version = "=1.0.229", features = ["derive"] }
serde_json = "=1.0.154"
spin = "=0.9.9"
uefi = { version = "=0.28.0", features = ["alloc"] }
uefi-services = { version = "=0.25.0", default-features = false }
