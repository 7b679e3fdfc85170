[package]
name = "vocab_review"
version = "0.1.0"
edition = "2021"
publish = false

[dependencies]
chrono = "=0.4.45"
lindera = { version = "=6.2.0", default-features = false }
rusqlite = { version = "=0.28.0", features = ["bundled"] }

[dev-dependencies]
lindera-dictionary = "=6.2.0"
