[package]
name = "incfleetchat"
version = "0.1.0"
edition = "2021"
publish = false

[dependencies]
chrono = "=0.4.45"
sha2 = "0.10"
hex = "=0.4.3"
serde = { version = "1", features = ["derive"] }
serde_json = "1"
sqlx = { version = "0.8", default-features = false, features = ["sqlite", "runtime-tokio", "macros"] }
tokio = { version = "1", features = ["rt-multi-thread", "macros"] }
notify = "8"
dirs = "6"
parking_lot = "0.12"
