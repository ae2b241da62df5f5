[package]
name = "icfp"
version = "0.1.0"
edition = "2021"
publish = false

[dependencies]
reqwest = { version = "*", default-features = false, features = ["blocking"] }
image = { version = "*", default-features = false, features = ["png"] }
