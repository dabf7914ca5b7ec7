[package]
name = "nmm"
version = "0.1.0"
edition = "2021"
publish = false

[dependencies]
arrayvec = "=0.7.8"
serde = { version = "=1.0.229", features = ["derive"] }
serde_json = "=1.0.154"
escargot = "=0.5.15"
anyhow = "=1.0.104"
env_logger = { version = "=0.11.11", default-features = false }
log = "=0.4.35"
ureq = { version = "=3.5.1", default-features = false }
thiserror = "=2.0.21"

[dev-dependencies]
x86_64 = { version = "=0.15.5", default-features = false, features = ["instructions"] }
