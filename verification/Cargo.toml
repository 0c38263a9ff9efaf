[package]
name = "pw"
version = "0.1.0"
edition = "2021"
publish = false

[dependencies]
rand = "0.8"
rusqlite = { version = "*", features = ["bundled"] }
rust-ini = "*"
rustyline = "*"
clipboard = "*"
serde_json = "*"
