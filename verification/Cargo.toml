[package]
name = "darkstone"
version = "0.1.0"
edition = "2021"
publish = false

[dependencies]
iced = { version = "0.13", default-features = false, features = ["tiny-skia", "markdown", "tokio"] }
tokio = { version = "1", features = ["fs"] }
url = "2"
