[package]
name = "shtml_extraction"
version = "0.1.0"
edition = "2021"
publish = false

[dependencies]
smallvec = "1"
html5ever = "*"
bincode = { version = "2", features = ["serde"] }
serde = { version = "1", features = ["derive"] }
