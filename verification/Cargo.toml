[package]
name = "kid_phone_server"
version = "0.1.0"
edition = "2021"
publish = false

[dependencies]
argon2 = { version = "0.5", features = ["std"] }
askama = "0.14"
axum = { version = "0.8", features = ["multipart"] }
chrono = "0.4"
dotenvy = "0.15"
hex = "0.4"
pbkdf2 = "0.12"
qrcode = { version = "0.14", default-features = false, features = ["svg"] }
reqwest = { version = "0.13", default-features = false, features = ["json", "rustls-no-provider"] }
rustls = { version = "0.23", default-features = false, features = ["logging", "ring", "std", "tls12"] }
serde = { version = "1", features = ["derive"] }
serde_json = "1"
sha2 = "0.10"
sqlx = { version = "0.8", default-features = false, features = ["derive", "migrate", "runtime-tokio", "sqlite"] }
tokio = { version = "1", features = ["fs", "macros", "net", "process", "rt-multi-thread", "sync", "time"] }
tokio-stream = { version = "0.1", features = ["sync"] }
totp-rs = { version = "5", features = ["gen_secret", "otpauth"] }
tower-http = { version = "0.6", features = ["fs"] }
tower-sessions = "0.14"
tower-sessions-sqlx-store = { version = "0.15", features = ["sqlite"] }
tracing = "0.1"
tracing-subscriber = "0.3"
webpki-roots = "1"
zip = { version = "2", default-features = false, features = ["deflate"] }
