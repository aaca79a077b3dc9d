[package]
name = "yudao_scaffold"
version = "0.1.0"
edition = "2021"
publish = false

[dependencies]
bcrypt = "*"
serde = { version = "1", features = ["derive"] }
serde_json = "1"
reqwest = { version = "0.12", default-features = false, features = ["rustls-tls"] }
tokio = { version = "1", features = ["rt-multi-thread", "macros", "fs", "net", "io-util"] }
zip = { version = "2", default-features = false, features = ["deflate"] }
