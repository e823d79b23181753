[package]
name = "session_auth"
version = "0.1.0"
edition = "2021"
publish = false

[dependencies]
rust-argon2 = "=3.0.0"
jsonwebtoken = { version = "=11.1.0", default-features = false, features = ["rust_crypto"] }
base64 = "=0.23.1"
uuid = { version = "=1.27.0", features = ["v4"] }
validator = "=0.21.0"
chrono = "=0.4.45"
serde = { version = "*", features = ["derive"] }
serde_json = "*"
axum = "*"
tokio = { version = "*", features = ["macros", "rt-multi-thread", "net"] }
sqlx = { version = "*", default-features = false, features = ["sqlite", "runtime-tokio"] }
secrecy = "*"
thiserror = "*"
tower-http = { version = "*", features = ["cors", "trace"] }
