[package]
name = "celld"
version = "0.1.0"
edition = "2021"
publish = false

[dependencies]
serde = { version = "1", features = ["derive"] }
serde_json = "1"
calamine = "*"
quick-xml = "*"
zip = { version = "*", default-features = false, features = ["deflate"] }
rust_xlsxwriter = "*"
rusqlite = { version = "*", features = ["bundled"] }
chrono = "0.4"
uuid = { version = "1", features = ["v4"] }
thiserror = "*"
