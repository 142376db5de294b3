[package]
name = "bt_tracker"
version = "0.1.0"
edition = "2021"
publish = false

[dependencies]
sha1 = "=0.11.0"
rand = "=0.10.3"
url = "=2.5.8"
log = "*"
clap = { version = "*", features = ["derive"] }
config = "*"
simple_logger = "*"
tokio = { version = "*", features = ["full"] }
reqwest = { version = "*", default-features = false }
serde = { version = "*", features = ["derive"] }
serde_bytes = "*"
serde_bencode = "=0.2.4"
