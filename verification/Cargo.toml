[package]
name = "hash_ledger"
version = "0.1.0"
edition = "2021"
publish = false

[dependencies]
chrono = { version = "0.4", default-features = false, features = ["now"] }
dotenv = "0.15"
futures = "0.1"
hex = "0.3"
hyper = "0.12"
serde = { version = "1", features = ["derive"] }
serde_json = "1"
sha2 = "0.8"
