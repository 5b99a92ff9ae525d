[package]
name = "cactup"
version = "0.1.0"
edition = "2021"
publish = false

[dependencies]
anyhow = "1"
chrono = { version = "0.4", features = ["serde"] }
colored = "*"
gethostname = "*"
gix = { version = "*", default-features = false, features = ["sha1", "blocking-network-client", "revision", "interrupt", "progress-tree"] }
include_dir = "0.7"
indexmap = { version = "2", features = ["serde"] }
prodash = { version = "*", features = ["progress-tree", "render-line", "render-line-crossterm", "render-line-autoconfigure", "unit-bytes"] }
regex = "1"
serde = { version = "1", features = ["derive"] }
signal-hook = "*"
tempfile = "3"
toml = { version = "*", features = ["preserve_order"] }
