[package]
name = "codebake"
version = "0.1.0"
edition = "2021"
publish = false

[dependencies]
base64 = "0.13"
radix_fmt = "1"
regex = "1"
serde = { version = "1", features = ["derive"] }
tinytemplate = "1"
