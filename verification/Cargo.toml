[package]
name = "hyprlauncher"
version = "0.1.0"
edition = "2021"
publish = false

[dependencies]
fuzzy-matcher = "*"
shellexpand = "*"
serde = { version = "*", features = ["derive"] }
serde_json = "*"
dirs = "*"
notify = "*"
once_cell = "*"
ctrlc = "*"
rayon = "*"
tokio = { version = "*", features = ["rt", "rt-multi-thread", "sync", "time"] }
gtk4 = "*"
gtk4-layer-shell = "*"
