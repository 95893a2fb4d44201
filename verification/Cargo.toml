[package]
name = "update_check"
version = "0.1.0"
edition = "2021"
publish = false

[dependencies]
itertools = "0.13"
rustc-hash = "2"
chrono = "0.4"
clap = { version = "4", features = ["derive"] }
futures = "0.3"
tokio = { version = "1", features = ["macros", "rt-multi-thread", "net", "io-util", "time"] }
reqwest = { version = "0.12", default-features = false, features = ["rustls-tls"] }
serde_json = "1"
