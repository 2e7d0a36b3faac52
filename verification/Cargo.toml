[package]
name = "zero2prod"
version = "0.1.0"
edition = "2021"
publish = false

[dependencies]
axum = "*"
chrono = "*"
form_urlencoded = "*"
sqlx = { version = "*", default-features = false, features = ["runtime-tokio", "postgres", "uuid", "chrono"] }
tokio = { version = "*", features = ["macros", "rt-multi-thread", "net"] }
tower = "*"
tower-http = { version = "*", features = ["request-id"] }
tracing = "*"
uuid = { version = "*", features = ["v4"] }
