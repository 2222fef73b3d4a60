[package]
name = "clipit"
version = "0.1.0"
edition = "2021"
publish = false

[dependencies]
serde = { version = "=1.0.229", features = ["derive"] }
serde_json = "=1.0.154"
tokio = { version = "=1.54.1", features = ["rt", "time", "sync"] }
wl-clipboard-rs = "=0.9.5"
zbus = "=5.19.0"
i18n-embed = { version = "=0.16.0", features = ["fluent-system", "desktop-requester"] }
i18n-embed-fl = "=0.10.1"
rust-embed = "=8.13.0"
