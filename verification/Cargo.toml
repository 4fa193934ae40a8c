[package]
name = "datoxidize"
version = "0.1.0"
edition = "2021"
publish = false

[dependencies]
dotenvy = "*"
filetime = "*"
fs_extra = "*"
serde = { version = "*", features = ["derive"] }
serde_json = "*"

[dev-dependencies]
rand = "0.8"
