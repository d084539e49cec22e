[package]
name = "registry_publish"
version = "0.1.0"
edition = "2021"
publish = false

[dependencies]
anyhow = "1"
base64 = "0.21"
deno_terminal = "0.1"
hex = "0.4"
log = "0.4"
open = "5"
percent-encoding = "2"
reqwest = { version = "0.11", default-features = false, features = ["json"] }
serde = { version = "1", features = ["derive"] }
serde_json = "1"
sha2 = "0.10"
tokio = { version = "1", features = ["rt", "time"] }
uuid = { version = "1", features = ["v4"] }
