[package]
name = "opendict_crawler"
version = "0.1.0"
edition = "2021"
publish = false

[dependencies]
sled = "*"
flate2 = "*"
serde_json = "*"
reqwest = { version = "*", default-features = false, features = ["rustls-tls"] }
tokio = { version = "*", features = ["macros", "rt-multi-thread"] }
clap = "*"
