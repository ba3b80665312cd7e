[package]
name = "jwks_server"
version = "0.1.0"
edition = "2021"
publish = false

[dependencies]
base64-url = "*"
chrono = "0.4"
jsonwebtoken = "9"
rand = "0.8"
rsa = "0.9"
rusqlite = { version = "0.31", features = ["bundled"] }
serde_json = "1"
time = "0.3"
tokio = { version = "1", features = ["macros", "rt-multi-thread"] }
warp = "0.3"
