[package]
name = "strikeout"
version = "0.1.0"
edition = "2021"
publish = false

[dependencies]
anyhow = "*"
base64 = "*"
chrono = "*"
clap = { version = "*", features = ["derive"] }
colored = "*"
dirs = "*"
futures-util = "*"
log = "*"
log-panics = "*"
md-5 = "*"
reqwest = { version = "*", default-features = false, features = ["json"] }
serde = { version = "*", features = ["derive"] }
serde_json = "*"
simplelog = "*"
thiserror = "*"
tokio = { version = "*", features = ["rt", "macros"] }
toml = "*"
walkdir = "*"
