[package]
name = "codex_plus_core"
version = "0.1.0"
edition = "2021"
publish = false

[dependencies]
anyhow = "=1.0.104"
base64 = "=0.22.1"
reqwest = { version = "=0.12.28", default-features = false, features = ["json", "rustls-tls"] }
serde = { version = "=1.0.229", features = ["derive"] }
serde_json = "=1.0.154"
tokio = { version = "=1.54.1", features = ["macros", "rt-multi-thread", "io-std", "io-util"] }
toml = "=0.8.23"
toml_edit = "=0.22.27"
windows = { version = "0.58", features = ["Win32_Foundation", "Win32_Security_Credentials"] }
