[package]
name = "risk"
version = "0.1.0"
edition = "2021"
publish = false

[dependencies]
rand = "0.8"
uuid = "1"
urlencoding = "2"
chrono = "0.4"
dotenv = "0.15"
serde = { version = "1", features = ["derive"] }
serde_json = "1"
thiserror = "1"
jsonwebtoken = "8"
diesel = { version = "2", features = ["postgres", "chrono", "uuid"] }
rocket = { version = "0.5", features = ["json", "secrets"] }
