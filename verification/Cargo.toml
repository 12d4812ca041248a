[package]
name = "horchd"
version = "0.2.0"
edition = "2021"
publish = false

[dependencies]
sha2 = "0.10"
serde = { version = "1", features = ["derive"] }
serde_json = "1"
toml = "*"
toml_edit = "*"
tokio = { version = "1", features = ["io-util", "rt", "macros", "sync", "time", "fs"] }
hound = "3"
shellexpand = "3"
anyhow = "1"
thiserror = "*"
