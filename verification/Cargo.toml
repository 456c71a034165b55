[package]
name = "memoria"
version = "0.3.0"
edition = "2021"
publish = false

[dependencies]
axum = "0.7"
calamine = "0.22"
chrono = "0.4"
getrandom = "0.2"
libc = "0.2"
pdf-extract = "0.7"
quick-xml = "0.36"
reqwest = { version = "0.12", default-features = false, features = ["blocking", "json"] }
rusqlite = { version = "0.31", features = ["bundled"] }
serde = { version = "1", features = ["derive"] }
serde_json = "1"
sha2 = "0.10"
tokio = { version = "1", features = ["full"] }
tower-http = { version = "0.5", features = ["cors"] }
tracing = "0.1"
tracing-subscriber = { version = "0.3", features = ["env-filter"] }
uuid = { version = "1", features = ["v4"] }
zip = { version = "2", default-features = false, features = ["deflate"] }
