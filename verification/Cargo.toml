[package]
name = "auth_core"
version = "0.1.0"
edition = "2021"
publish = false

[dependencies]
jsonwebtoken = "9"
base64 = "0.22"
bcrypt = "*"
chrono = "0.4"
serde = { version = "1", features = ["derive"] }
serde_json = "1"
axum = "*"
axum-extra = { version = "*", features = ["cookie"] }
tokio = { version = "1", features = ["rt-multi-thread", "macros", "net"] }
tower-http = { version = "*", features = ["compression-gzip", "cors", "propagate-header", "sensitive-headers", "trace"] }
tracing = "0.1"
tracing-subscriber = "0.3"
dotenv = "0.15"
http = "1"
thiserror = "*"
