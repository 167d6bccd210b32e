[package]
name = "interpolation_engine"
version = "0.1.0"
edition = "2021"
publish = false

[dependencies]
anyhow = "1"
async-recursion = "1"
chrono = "0.4"
clap = { version = "4", features = ["derive"] }
crossterm = "0.27"
eventsource-stream = "0.2"
futures = "0.3"
json5 = "0.4"
rand = "0.8"
ratatui = "0.26"
regex = "1"
reqwest = { version = "0.12", default-features = false, features = ["json", "stream"] }
serde_json = { version = "1", features = ["preserve_order"] }
shellexpand = "3"
tokio = { version = "1", features = ["full"] }
tokio-util = "0.7"
which = "6"
