[package]
name = "resava"
version = "0.1.0"
edition = "2021"
publish = false

[dependencies]
clap = { version = "4", features = ["derive"] }
ignore = "0.4"
thiserror = "1"

[dev-dependencies]
regex = "1"
strsim = "0.11"
