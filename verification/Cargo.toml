[package]
name = "cortex"
version = "0.1.0"
edition = "2021"
publish = false

[dependencies]
blake3 = "1"
uuid = { version = "1", features = ["v7"] }
dirs = "*"
serde = { version = "1", features = ["derive"] }
serde_json = "1"
toml = "*"
thiserror = "*"
clap = { version = "4", features = ["derive"] }
crossbeam-channel = "0.5"
tokio = { version = "1", features = ["full"] }
tokio-util = "0.7"
tracing = "0.1"
tracing-subscriber = { version = "0.3", features = ["env-filter"] }
libc = "0.2"
notify = "*"
rusqlite = { version = "*", features = ["bundled"] }
axum = "0.8"
hyper = { version = "1", features = ["client", "http1"] }
hyper-util = { version = "0.1", features = ["tokio"] }
http-body-util = "0.1"
reqwest = { version = "0.12", default-features = false, features = ["blocking", "rustls-tls"] }
ndarray = "0.16"
ort = "2.0.0-rc.10"
tokenizers = { version = "*", default-features = false, features = ["onig"] }
