[package]
name = "pixel_collector_api"
version = "0.1.0"
edition = "2021"
publish = false

[dependencies]
jsonwebtoken = { version = "=11.1.0", default-features = false, features = ["rust_crypto"] }
nanoid = "=0.5.0"
chrono = "=0.4.45"
serde = { version = "*", features = ["derive"] }
serde_json = "*"
dotenv = "*"
reqwest = { version = "*", default-features = false, features = ["json", "form", "query"] }
axum = "*"
tokio = { version = "*", features = ["rt-multi-thread", "macros", "net"] }
moka = { version = "*", features = ["future"] }
tracing = "*"
