[package]
name = "cross_chain"
version = "0.1.0"
edition = "2021"
publish = false

[dependencies]
candid = "0.8"
ic-cdk = "0.6"
ic-cdk-macros = "0.6"
serde = { version = "1", features = ["derive"] }
serde_cbor = "0.11"
sha2 = "0.10"
