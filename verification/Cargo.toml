[package]
name = "codex_hosts"
version = "0.1.0"
edition = "2021"
publish = false

[dependencies]
ciborium = "=0.2.2"
egui = "=0.35.0"
keyring = "=3.6.3"
p256 = { version = "=0.14.0", features = ["ecdsa"] }
rfd = { version = "=0.16.1", default-features = false, features = ["xdg-portal", "tokio"] }
rmcp = { version = "=3.8.0", features = ["server", "macros", "transport-io"] }
russh = "=0.65.0"
schemars = "=1.2.3"
serde = { version = "=1.0.229", features = ["derive"] }
serde_json = "=1.0.154"
sha2 = "=0.11.1"
sys-locale = "=0.3.2"
thiserror = "=2.0.21"
tokio = { version = "=1.54.1", features = ["full"] }
tokio-util = "=0.7.20"
uuid = { version = "=1.29.0", features = ["serde", "v4"] }
zeroize = "=1.9.1"
