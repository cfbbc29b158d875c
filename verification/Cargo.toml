[package]
name = "llm_gateway"
version = "0.1.0"
edition = "2021"
publish = false

[dependencies]
sha2 = "0.10"
hex = "0.4"
flate2 = "1"
brotli = "*"
zstd = "0.13"
rand = "0.8"
serde = { version = "1", features = ["derive"] }
serde_json = "1"
parking_lot = "0.12"
argon2 = "0.5"
jsonwebtoken = "9"
chrono = "0.4"
uuid = { version = "1", features = ["v4"] }
libc = "0.2"
bytes = "1"
futures-util = "0.3"
tokio = { version = "1", features = ["time"] }
tracing = "0.1"

[dev-dependencies]
serde_json = "1"
