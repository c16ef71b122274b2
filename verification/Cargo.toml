[package]
name = "openapi2skill"
version = "0.1.0"
edition = "2021"
publish = false

[dependencies]
oas3 = "*"
serde_json = "*"
serde_yaml = "*"
url = "*"
anyhow = "*"
thiserror = "*"
clap = { version = "*", features = ["derive"] }
tokio = { version = "*", features = ["macros", "rt-multi-thread", "fs"] }
reqwest = { version = "*", default-features = false, features = ["rustls-tls"] }
tracing = "*"
tracing-subscriber = "*"
