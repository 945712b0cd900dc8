[package]
name = "azdo_boards"
version = "0.1.0"
edition = "2021"
publish = false

[dependencies]
html2text = "*"
serde = { version = "*", features = ["derive"] }
serde_json = "*"
reqwest = { version = "*", default-features = false, features = ["json", "rustls-tls"] }
tokio = { version = "*", features = ["rt-multi-thread", "macros"] }
azure_core = "*"
azure_identity = "*"
clap = { version = "*", features = ["derive"] }
log = "*"
env_logger = "*"
urlencoding = "*"
