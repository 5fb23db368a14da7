[package]
name = "agent_pin"
version = "0.1.0"
edition = "2021"
publish = false

[dependencies]
chrono = "0.4"
rand = "0.8"
url = "2"
serde = { version = "1", features = ["derive"] }
serde_json = "1"
once_cell = "1"
clap = { version = "4", features = ["derive", "env"] }
ureq = { version = "2", features = ["json"] }
axum = "0.8"
tokio = { version = "1", features = ["net", "rt-multi-thread", "macros"] }
tower-http = { version = "0.6", features = ["limit"] }
