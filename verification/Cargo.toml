[package]
name = "pipes_rs"
version = "0.1.0"
edition = "2021"
publish = false

[dependencies]
anyhow = "1"
arrow = { version = "58", default-features = false, features = ["ipc"] }
base64 = "0.22"
clap = { version = "4", features = ["derive"] }
crc32fast = "1"
image = { version = "0.25", default-features = false, features = ["jpeg"] }
ort = { version = "2.0.0-rc.10", default-features = false, features = ["std", "ndarray", "load-dynamic"] }
parquet = { version = "58", default-features = false, features = ["arrow", "snap"] }
serde = { version = "1", features = ["derive"] }
serde_json = "1"
