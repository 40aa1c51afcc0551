[package]
name = "ethbatch"
version = "0.1.0"
edition = "2021"
publish = false

[dependencies]
anyhow = "=1.0.104"
csv = "=1.4.0"
secp256k1 = "=0.27.0"
serde = { version = "=1.0.229", features = ["derive"] }
serde_json = "=1.0.151"
structopt = "=0.3.26"
tokio = { version = "=1.53.2", features = ["full"] }
web3 = { version = "=0.19.0", default-features = false, features = ["http", "signing"] }

[dev-dependencies]
tokio = { version = "=1.53.2", features = ["full", "test-util"] }
