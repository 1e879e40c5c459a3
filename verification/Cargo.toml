[package]
name = "oxide_paste"
version = "0.1.0"
edition = "2021"
publish = false

[dependencies]
bcrypt = "*"
nanoid = "*"
axum = "*"
axum-extra = { version = "*", features = ["cookie"] }
serde = { version = "*", features = ["derive"] }
tokio = { version = "*", features = ["rt-multi-thread", "macros", "net", "time"] }
