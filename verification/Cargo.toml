[package]
name = "rvasm"
version = "0.1.0"
edition = "2021"
publish = false

[dependencies]
object = { version = "*", default-features = false, features = ["std", "read", "write"] }
logos = "*"
clap = { version = "*", features = ["derive"] }
colored = "*"
thiserror = "*"
