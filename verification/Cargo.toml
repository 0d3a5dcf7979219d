[package]
name = "lb_ext_sdk"
version = "0.2.0"
edition = "2021"
publish = false

[dependencies]
serde = { version = "1", features = ["derive"] }
serde_json = "1"
thiserror = "2"
tokio = { version = "1", features = ["io-util", "io-std", "rt", "rt-multi-thread", "macros", "net", "sync"] }
reqwest = { version = "0.12", default-features = false, features = ["json"] }
