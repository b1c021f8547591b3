[package]
name = "veq"
version = "0.1.0"
edition = "2021"
publish = false

[dependencies]
snow = "0.9"
uuid = { version = "1", features = ["v4", "serde"] }
bincode = "1"
serde = { version = "1", features = ["derive"] }
tokio = { version = "1", features = ["full"] }
async-trait = "0.1"
anyhow = "1"
thiserror = "1"
log = "0.4"
network-interface = "1"
stunclient = "0.4"
clap = { version = "3", features = ["derive"] }
base64 = "0.13"
zstd = "0.13"
