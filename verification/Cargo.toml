[package]
name = "rizzler"
version = "0.1.0"
edition = "2021"
publish = false

[dependencies]
ropey = "=1.6.1"
regex = "=1.13.1"
sha2 = "=0.10.9"
bytes = "=1.12.1"
tokio-util = { version = "=0.7.20", features = ["codec"] }
lsp-types = "=0.97.0"
toml = "=1.1.8"
serde = { version = "=1.0.229", features = ["derive"] }
serde_json = "=1.0.154"
tokio = { version = "=1.54.1", features = ["process", "io-util", "rt", "sync", "time", "macros"] }
futures-util = { version = "0.3", features = ["sink"] }
which = "*"
crossbeam-channel = "0.5"
thiserror = "*"
