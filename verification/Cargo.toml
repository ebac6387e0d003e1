[package]
name = "craby"
version = "0.1.0"
edition = "2021"
publish = false

[dependencies]
anyhow = "1"
cxx-build = "1"
indoc = "2"
log = "0.4"
owo-colors = "4"
reqwest = { version = "0.12", default-features = false, features = ["blocking", "json", "rustls-tls"] }
serde = { version = "1", features = ["derive"] }
serde_json = "1"
xxhash-rust = { version = "0.8", features = ["xxh3"] }

[dev-dependencies]
regex = "1"
