[package]
name = "store_auth"
version = "0.1.0"
edition = "2021"
publish = false

[dependencies]
jsonwebtoken = { version = "=11.1.0", default-features = false, features = ["rust_crypto"] }
time = "=0.3.55"
serde = { version = "*", features = ["derive"] }
serde_json = "*"
reqwest = { version = "*", default-features = false, features = ["json"] }
actix-web = { version = "*", default-features = false }
actix-web-httpauth = "*"
actix-utils = "*"
secrecy = "*"
anyhow = "*"
thiserror = "*"
