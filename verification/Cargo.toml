[package]
name = "aura"
version = "0.1.0"
edition = "2021"
publish = false

[dependencies]
alpm = "*"
chrono = { version = "*", features = ["serde"] }
colored = "*"
i18n-embed = { version = "*", features = ["fluent-system"] }
log = "*"
rustyline = "*"
serde = { version = "*", features = ["derive"] }
serde_json = "*"
sudo = "*"
ubyte = "*"
unic-langid = "*"
webbrowser = "*"
