[package]
name = "swandist"
version = "0.1.0"
edition = "2021"
publish = false

[dependencies]
aes = "0.8"
async-trait = "0.1"
base64 = "0.22"
cfb8 = "0.8"
clap = { version = "4", features = ["derive"] }
flate2 = "1"
image = { version = "0.25", default-features = false, features = ["png"] }
rand = "0.8"
reqwest = { version = "0.12", default-features = false, features = ["json"] }
rsa = "0.9"
rsa-der = "0.3"
serde = { version = "1", features = ["derive"] }
serde_json = "1"
sha1 = "0.10"
tokio = { version = "1", features = ["full"] }
tokio-stream = { version = "0.1", features = ["time"] }
urlencoding = "2"
uuid = { version = "1", features = ["serde", "v4"] }
warp = "0.3"
zip = { version = "0.6", default-features = false }
