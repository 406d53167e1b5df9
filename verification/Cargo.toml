[package]
name = "boardsync"
version = "0.1.0"
edition = "2021"
publish = false

[dependencies]
yrs = "=0.28.0"
serde_json = "=1.0.151"
jsonwebtoken = { version = "=11.1.0", features = ["rust_crypto"] }
chrono = { version = "=0.4.45", features = ["serde"] }
serde = { version = "*", features = ["derive"] }
uuid = { version = "*", features = ["v4", "serde"] }
tokio = { version = "*", features = ["full"] }
axum = { version = "*", features = ["ws"] }
futures-util = "*"
sqlx = { version = "*", features = ["runtime-tokio-rustls", "postgres", "uuid", "chrono"] }
bcrypt = "*"
rand = "*"
