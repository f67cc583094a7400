[package]
name = "chrometab"
version = "1.1.0"
edition = "2021"
publish = false

[dependencies]
anyhow = "=1.0.104"
chrono = "=0.4.45"
clap = { version = "=4.6.7", features = ["derive", "env"] }
crossterm = { version = "=0.28.1", features = ["event-stream"] }
futures-util = { version = "=0.3.34", features = ["sink"] }
psl = "2"
ratatui = "=0.29.0"
regex = "=1.13.1"
reqwest = { version = "=0.12.28", default-features = false, features = ["json"] }
serde = { version = "=1.0.229", features = ["derive"] }
serde_json = "=1.0.154"
tokio = { version = "=1.54.1", features = ["full"] }
tokio-tungstenite = "=0.24.0"
urlencoding = "=2.1.3"
winapi = { version = "=0.3.9", features = ["winuser", "windef"] }
