[package]
name = "operations_toolkit"
version = "0.1.0"
edition = "2021"
publish = false

[dependencies]
chrono = "=0.4.45"
regex = "=1.13.1"
calamine = "=0.38.0"
csv = "=1.4.0"
rust_xlsxwriter = "=0.79.4"
serde = { version = "=1.0.229", features = ["derive"] }
serde_json = "=1.0.154"
rayon = "=1.12.0"
rustc-hash = "=2.1.3"
rusqlite = { version = "=0.32.1", features = ["bundled"] }
tokio = { version = "=1.54.1", features = ["sync"] }
