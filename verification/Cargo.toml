[package]
name = "am_osx_status"
version = "0.1.0"
edition = "2021"
publish = false

[dependencies]
md5 = "0.7"
base64 = "0.22"
uuid = "1"
flate2 = "1"
aes = "0.8"
ecb = "0.1"
serde = { version = "1", features = ["derive"] }
serde_json = "1"
