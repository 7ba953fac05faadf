[package]
name = "hc_http_gw"
version = "0.1.0"
edition = "2021"
publish = false

[dependencies]
base64 = "0.22"
serde = "1"
serde_json = "1"
holo_hash = { version = "*", features = ["encoding"] }
holochain_serialized_bytes = "*"
holochain_zome_types = { version = "*", default-features = false }
tokio = { version = "1", features = ["full"] }
axum = "*"
clap = { version = "4", default-features = false, features = ["std", "derive", "env", "help"] }
