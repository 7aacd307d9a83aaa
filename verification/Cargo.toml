[package]
name = "arsync"
version = "0.1.0"
edition = "2021"
publish = false

[dependencies]
aead = { version = "0.5", features = ["alloc", "stream"] }
aes-gcm = "0.10"
alipan = "*"
anyhow = "1"
async-recursion = "1"
async-trait = "0.1"
base64 = "0.22"
chrono = "0.4"
clap = "4"
futures-util = "0.3"
hex = "0.4"
md5 = "0.7"
once_cell = "1"
rand = "0.8"
reqwest = { version = "0.12", features = ["stream"] }
serde = { version = "1", features = ["derive"] }
serde_derive = "1"
serde_json = "1"
sha1 = "0.10"
tokio = { version = "1", features = ["full"] }
tokio-stream = "0.1"
tokio-util = { version = "0.7", features = ["io"] }
toml = "0.8"
url = "2"
urlencoding = "2"
warp = "0.3"
