[package]
name = "barq"
version = "0.1.0"
edition = "2021"
publish = false

[dependencies]
anyhow = "1"
bitcoin = "0.32"
clightningrpc = "0.2"
clightningrpc-plugin = "0.3.0-beta.8"
clightningrpc-plugin-macros = "0.3.0-beta.4"
lightning = "=0.0.125"
log = "0.4"
petgraph = "0.6"
secp256k1 = "0.29"
serde = { version = "1", features = ["derive"] }
serde_json = "1"
