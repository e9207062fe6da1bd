[package]
name = "linker"
version = "0.1.0"
edition = "2021"
publish = false

[dependencies]
url = "*"
chrono = "*"
clap = { version = "*", features = ["derive"] }
colored = "*"
dirs = "*"
serde = { version = "*", features = ["derive"] }
serde_json = "*"
open = "*"
