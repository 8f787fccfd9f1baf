[package]
name = "libs_tools"
version = "0.1.0"
edition = "2021"
publish = false

[dependencies]
chrono = "0.4"
rand = "0.8"
regex = "1"
time = "0.2"
serde = { version = "1", features = ["derive"] }
serde_json = "1"
reqwest = { version = "0.11", default-features = false, features = ["blocking", "json", "rustls-tls"] }
clap = { version = "4", features = ["derive"] }
color-eyre = "0.6"
anyhow = "1"
syn = { version = "2", features = ["full", "visit", "extra-traits", "parsing", "printing"] }
quote = "1"
proc-macro2 = "1"
walkdir = "2"
csv = "1"
