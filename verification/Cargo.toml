[package]
name = "genshin_map_generator"
version = "0.1.0"
edition = "2021"
publish = false

[dependencies]
anyhow = "*"
http-cache-reqwest = "=0.16.0"
image = { version = "=0.25.10", default-features = false, features = ["png", "jpeg"] }
reqwest = { version = "=0.12.28", default-features = false, features = ["json"] }
reqwest-middleware = "=0.4.2"
serde = { version = "*", features = ["derive"] }
serde_json = "*"
tokio = { version = "=1.53.2", features = ["rt"] }
