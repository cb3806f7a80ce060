[package]
name = "raise"
version = "0.1.0"
edition = "2021"
publish = false

[dependencies]
serde = { version = "=1.0.229", features = ["derive"] }
serde_json = "=1.0.154"
regex = "=1.13.1"
uuid = { version = "=1.29.0", features = ["v4"] }
chrono = "=0.4.45"
sha2 = "=0.10.9"
hex = "=0.4.3"
bincode = { version = "=2.0.1", features = ["serde"] }
rand = "=0.9.5"
sqlparser = { version = "0.55", default-features = false, features = ["std"] }
