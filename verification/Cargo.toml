[package]
name = "cropgun"
version = "0.1.0"
edition = "2021"
publish = false

[dependencies]
geo = { version = "*", default-features = false }
image = { version = "*", default-features = false, features = ["png"] }
imageproc = { version = "*", default-features = false }
notify = "*"
clap = { version = "4", features = ["derive"] }
