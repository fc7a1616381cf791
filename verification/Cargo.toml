[package]
name = "carp_ingest"
version = "0.1.0"
edition = "2021"
publish = false

[dependencies]
cml-multi-era = "=6.2.0"
cml-chain = "=6.2.0"
cml-core = "=6.2.0"
cml-crypto = "=6.2.0"
cbor_event = "=2.4.0"
serde_json = "=1.0.151"
serde = { version = "=1.0.229", features = ["derive"] }

[dev-dependencies]
hex = "=0.4.3"
