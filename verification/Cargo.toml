[package]
name = "compute_market"
version = "0.1.0"
edition = "2021"
publish = false

[dependencies]
bs58 = "*"
hex = "*"
serde = { version = "*", features = ["derive"] }
serde_json = "*"

[dev-dependencies]
parity-scale-codec = "*"
