[package]
name = "comicinfo"
version = "0.1.0"
edition = "2021"
publish = false

[dependencies]
serde = { version = "*", features = ["derive"] }
sqlx = { version = "*", default-features = false, features = ["derive"] }
