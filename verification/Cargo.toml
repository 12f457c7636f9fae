[package]
name = "soa_catalog"
version = "0.1.0"
edition = "2021"
publish = false

[dependencies]
chrono = "0.4"
dunce = "1"
glob = "0.3"
lofty = "*"
notify = "*"
notify-debouncer-mini = "*"
serde = { version = "1", features = ["derive"] }
serde_json = "1"
