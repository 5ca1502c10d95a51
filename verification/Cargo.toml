[package]
name = "mdoc_holder"
version = "0.1.0"
edition = "2021"
publish = false

[dependencies]
async-trait = "=0.1.92"
chrono = "=0.4.45"
ciborium = "=0.2.2"
coset = "=0.3.8"
futures = "=0.3.34"
indexmap = "=2.14.2"
p256 = { version = "=0.13.2", features = ["ecdh", "ecdsa"] }
rand_core = { version = "=0.6.4", features = ["getrandom"] }
reqwest = { version = "=0.12.28", default-features = false }
ring = "=0.17.14"
rustls-webpki = "=0.101.7"
serde = { version = "=1.0.229", features = ["derive"] }
serde_json = { version = "=1.0.154", features = ["preserve_order"] }
thiserror = "=1.0.69"
tokio = { version = "=1.54.1", features = ["rt", "macros"] }
url = "=2.5.8"
x509-parser = "=0.18.1"

[dev-dependencies]
rcgen = "=0.14.10"
