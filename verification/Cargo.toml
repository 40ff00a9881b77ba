[package]
name = "atlas"
version = "0.1.0"
edition = "2021"
publish = false

[dependencies]
chrono = "=0.4.45"
serde = { version = "=1.0.229", features = ["derive"] }
serde_json = "=1.0.154"
clap = { version = "=4.6.7", features = ["derive"] }
axum = "=0.8.9"
tokio = { version = "=1.54.1", features = ["full"] }
open = "=5.4.5"
crossterm = "=0.29.0"
ratatui = "=0.30.2"
ratatui-image = { version = "=11.1.0", default-features = false, features = ["crossterm"] }
image = { version = "=0.25.10", default-features = false, features = ["png"] }
