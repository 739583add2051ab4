[package]
name = "hoops_app"
version = "0.1.0"
edition = "2021"
publish = false

[dependencies]
uuid = { version = "1", features = ["v4"] }
chrono = "0.4"
tokio = { version = "1", features = ["rt", "macros"] }
sqlx = { version = "0.8", features = ["sqlite", "runtime-tokio"], default-features = false }

[dev-dependencies]
rust_decimal = "1"
