[package]
name = "bumpversion"
version = "0.1.0"
edition = "2021"
publish = false

[dependencies]
regex = "*"
similar-asserts = "*"
glob = "*"
indexmap = "*"
tokio = { version = "*", features = ["fs", "io-util", "rt"] }
