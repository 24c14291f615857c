[package]
name = "partlookup"
version = "0.1.0"
edition = "2021"
publish = false

[dependencies]
indexmap = "=2.14.2"
serde_json = "=1.0.154"
serde = { version = "1", features = ["derive"] }
reqwest = { version = "=0.12.28", default-features = false, features = ["blocking", "rustls-tls"] }
arboard = { version = "=3.7.0", default-features = false }
downloader = { version = "=0.2.8", default-features = false }
glob = "=0.3.4"
subprocess = "=1.2.1"
tempdir = "=0.3.7"
env_logger = { version = "=0.11.11", default-features = false }
egui = "0.28"
egui_extras = "0.28"
egui-dropdown = "0.10"

[dev-dependencies]
regex = "=1.13.1"
