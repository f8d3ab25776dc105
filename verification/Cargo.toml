[package]
name = "crypto_prices"
version = "0.1.0"
edition = "2021"
publish = false

[dependencies]
clap = "2"
dotenv = "0.15"
log = "0.4"
log4rs = "1"
reqwest = { version = "0.11", default-features = false, features = ["rustls-tls"] }
tokio = { version = "1", features = ["macros", "rt-multi-thread"] }
