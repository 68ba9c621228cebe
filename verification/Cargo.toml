[package]
name = "traceback"
version = "0.1.0"
edition = "2021"
publish = false

[dependencies]
chrono = "*"
md5 = "*"
urlencoding = "*"
serde = { version = "*", features = ["derive"] }
serde_json = "*"
rusqlite = { version = "*", default-features = false, features = ["bundled"] }
git2 = { version = "*", default-features = false }
