[package]
name = "hayate"
version = "0.1.0"
edition = "2021"
publish = false

[dependencies]
quick-xml = "=0.37.5"
zip = { version = "=9.2.2", default-features = false, features = ["deflate"] }
redb = "=4.4.0"
serde = { version = "=1.0.229", features = ["derive"] }
serde_json = "=1.0.154"
