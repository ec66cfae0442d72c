[package]
name = "infinity_msfs"
version = "0.1.0"
edition = "2021"
publish = false

[dependencies]
heck = "=0.5.0"
serde_json = "=1.0.154"
serde = { version = "=1.0.229", features = ["derive"] }
toml = "=0.8.23"
anyhow = "=1.0.104"
clap = { version = "=4.6.7", features = ["derive"] }
console = "=0.15.11"
dialoguer = "=0.11.0"
include_dir = "=0.7.4"
notify-debouncer-mini = "=0.4.1"
cargo_metadata = "=0.18.1"
tokio = { version = "=1.54.1", features = ["rt"] }
rustc-hash = "=2.1.3"
