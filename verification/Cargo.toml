[package]
name = "bomberman"
version = "0.1.0"
edition = "2021"
publish = false

[dependencies]
rand = "0.9"
serde = { version = "1", features = ["derive"] }
serde_cbor = "0.11"
glam = "0.30"
anyhow = "1"
log = "0.4"
