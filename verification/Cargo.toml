[package]
name = "ollama-model-resolver"
version = "0.1.0"
edition = "2021"
publish = false

[dependencies]
bytesize = "2"
clap = { version = "4", features = ["derive"] }
colored = "3"
comfy-table = "7"
dialoguer = "0.11"
libc = "0.2"
reqwest = { version = "0.12", default-features = false, features = ["blocking", "json", "rustls-tls"] }
serde_json = "1"
