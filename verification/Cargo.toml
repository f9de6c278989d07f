[package]
name = "bread"
version = "1.0.0"
edition = "2021"
publish = false

[dependencies]
sha2 = "0.10"
hex = "0.4"
flate2 = "1"
tar = "0.4"
toml = "0.5"
serde = { version = "1", features = ["derive"] }
hyper = { version = "0.14", features = ["client", "http1", "http2", "tcp"] }
hyper-tls = "0.5"
futures = "0.3"
tokio = { version = "1", features = ["rt-multi-thread", "macros"] }
indicatif = "0.17"
console = "0.15"
log = "0.4"
pretty_env_logger = "0.4"
clap = "2.33"
