[package]
name = "part_registry"
version = "0.1.0"
edition = "2021"
publish = false

[dependencies]
qrcode = { version = "=0.14.1", default-features = false }
rxing = "=0.9.3"
serde = { version = "=1.0.229", features = ["derive"] }
serde_json = "=1.0.154"
thiserror = "=2.0.21"
figment = { version = "=0.10.19", features = ["toml", "env"] }
glob = "=0.3.4"
time = { version = "=0.3.55", features = ["local-offset"] }
toml = "=1.1.8"
uuid = "=1.29.0"

[dev-dependencies]
roxmltree = "*"
