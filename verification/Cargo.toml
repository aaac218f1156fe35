[package]
name = "msgx"
version = "0.1.0"
edition = "2021"
publish = false

[dependencies]
askama = "0.12"
askama_axum = "0.4"
axum = "0.7"
axum-extra = { version = "0.9", features = ["cookie"] }
chrono = "0.4"
diesel = { version = "2.1", default-features = false, features = ["mysql_backend", "chrono"] }
diesel-async = { version = "0.4", features = ["mysql", "deadpool"] }
dotenv = "0.15"
serde = { version = "1", features = ["derive"] }
serde_json = "1"
tokio = { version = "1", features = ["full"] }
tower-http = { version = "0.5", features = ["fs"] }
urlencoding = "2"
