[package]
name = "abof"
version = "0.1.0"
edition = "2021"
publish = false

[dependencies]
fasthash = "=0.4.0"
jexl-eval = "=0.4.0"
jexl-parser = "=0.4.0"
rand = "=0.8.8"
nanoid = "=0.4.0"
serde = { version = "=1.0.229", features = ["derive"] }
serde_json = "=1.0.151"
anyhow = "=1.0.104"
tokio = { version = "=1.53.2", features = ["full"] }
hyper = { version = "=0.14.32", features = ["full"] }
http = "=0.2.12"
cookie = "=0.16.2"
chrono = "=0.4.45"
config = "=0.13.4"
walkdir = "=2.5.0"
