[package]
name = "hausmeister"
version = "0.1.0"
edition = "2021"
publish = false

[dependencies]
argon2 = "0.5"
uuid = { version = "1", features = ["v4"] }
validator = "0.16"
webauthn-rs = "0.4"
serde = { version = "1", features = ["derive"] }
serde_json = "1"
tokio = { version = "1", features = ["rt-multi-thread", "macros"] }
axum = "0.6"
sqlx = { version = "0.6", default-features = false, features = ["runtime-tokio-rustls", "postgres", "uuid", "json"] }
redis = { version = "0.23", features = ["tokio-comp", "json"] }
config = "0.13"
