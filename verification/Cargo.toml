[package]
name = "nosubvod"
version = "0.1.0"
edition = "2021"
publish = false

[dependencies]
reqwest = { version = "=0.12.28", default-features = false, features = ["json"] }
uuid = { version = "=1.29.0", features = ["v4"] }
serde = { version = "=1.0.229", features = ["derive"] }
serde_json = "=1.0.154"
tokio = { version = "=1.54.1", features = ["rt-multi-thread", "macros", "fs", "net", "sync", "time"] }
futures = "=0.3.34"
axum = "=0.7.9"
tower-http = { version = "=0.5.2", features = ["cors", "fs"] }
base64 = "=0.22.1"
image = { version = "=0.25.10", default-features = false, features = ["png"] }
qrcode = "=0.14.1"
local-ip-address = "=0.6.13"

[dev-dependencies]
regex = "=1.13.1"
