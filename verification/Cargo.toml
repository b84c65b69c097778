[package]
name = "neural_forge"
version = "0.1.0"
edition = "2021"
publish = false

[dependencies]
regex = "1"
anyhow = "1"
axum = "0.7"
bytemuck = "1"
clap = { version = "4", features = ["derive"] }
colored = "2"
futures-util = "0.3"
half = "2"
indicatif = "0.17"
libc = "0.2"
rand = "0.8"
reqwest = { version = "0.12", default-features = false, features = ["json", "stream", "rustls-tls"] }
serde = { version = "1", features = ["derive"] }
serde_json = "1"
thiserror = "1"
tokio = { version = "1", features = ["full"] }
tracing = "0.1"
uuid = { version = "1", features = ["v4"] }
