[package]
name = "fltn"
version = "0.1.0"
edition = "2021"
publish = false

[dependencies]
anyhow = "=1.0.104"
clap = { version = "=4.6.7", features = ["derive"] }
colored = "=3.1.1"
csv = "=1.4.0"
indexmap = { version = "=2.14.2", features = ["serde"] }
jsonpath-rust = "=1.0.12"
mime_guess = "=2.0.5"
serde = "=1.0.229"
serde_json = { version = "=1.0.154", features = ["preserve_order", "unbounded_depth"] }
serde_stacker = "=0.1.14"
serde_yaml = "=0.9.34"
toml = "=1.1.8"
unicode_categories = "=0.1.1"

[dev-dependencies]
tempfile = "=3.27.0"
