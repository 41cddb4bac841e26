[package]
name = "pgp_blocks"
version = "0.1.0"
edition = "2021"
publish = false

[dependencies]
clap = { version = "4", features = ["derive"] }
rpassword = "7"

[dev-dependencies]
regex = "1"
