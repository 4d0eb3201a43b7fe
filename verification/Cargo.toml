[package]
name = "ndscore"
version = "0.1.0"
edition = "2021"
publish = false

[dependencies]
brotli = { version = "=9.1.1", features = ["portable-float"] }
zip = { version = "=9.2.2", default-features = false, features = ["deflate"] }
png = "=0.18.1"
serde = { version = "=1.0.229", features = ["derive"] }
strum = { version = "=0.28.0", features = ["derive"] }
thiserror = "=2.0.21"
