[package]
name = "hank"
version = "0.1.0"
edition = "2021"
publish = false

[dependencies]
regex = "=1.13.1"
semver = { version = "=1.0.28", features = ["serde"] }
xdg = "=2.5.2"
serde = { version = "=1.0.229", features = ["derive"] }
serde_json = "=1.0.154"
anyhow = "=1.0.104"
clap = { version = "=4.6.7", features = ["derive"] }
confique = { version = "=0.2.6", default-features = false, features = ["yaml"] }
extism = { version = "=1.21.0", default-features = false }
extism-pdk = { version = "=1.4.1", default-features = false }
extism-convert = "=1.21.0"
tokio = { version = "=1.54.1", features = ["rt-multi-thread", "macros", "sync"] }
tracing = "=0.1.44"
tracing-subscriber = "=0.3.23"
twilight-cache-inmemory = "=0.15.4"
twilight-gateway = { version = "=0.15.4", default-features = false }
twilight-http = { version = "=0.15.4", default-features = false }
twilight-model = "=0.15.4"
