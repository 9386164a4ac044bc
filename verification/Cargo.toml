[package]
name = "chat_lib"
version = "0.1.0"
edition = "2021"
publish = false

[dependencies]
anyhow = "=1.0.104"
bincode = "=1.3.3"
regex = "=1.13.1"
yansi = "=1.0.1"

[dev-dependencies]
serde = "=1.0.229"
