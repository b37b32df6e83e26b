[package]
name = "cpp_test_runner"
version = "0.1.0"
edition = "2021"
publish = false

[dependencies]
regex = "*"
serde = { version = "*", features = ["derive"] }
serde_json = "*"
clap = { version = "*", features = ["derive"] }
anyhow = "*"
crossbeam = "*"
ignore = "*"
faccess = "*"
rayon = "*"
colored = "*"
atty = "*"
