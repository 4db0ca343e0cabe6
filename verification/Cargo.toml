[package]
name = "organizarr"
version = "0.1.0"
edition = "2021"
publish = false

[dependencies]
anyhow = "1"
fs_extra = "1"
futures = "0.3"
log = "0.4"
log4rs = "1"
reqwest = { version = "0.12", default-features = false, features = ["json", "cookies", "rustls-tls"] }
serde = { version = "1", features = ["derive"] }
serde_json = "1"
serde_yaml_ng = "0.10"
tokio = { version = "1", features = ["full"] }
trash = "5"
