[package]
name = "icon_builder"
version = "0.1.0"
edition = "2021"
publish = false

[dependencies]
base64 = "0.21"
icns = "0.3"
image = "0.24"
native-dialog = "0.6"
tokio = { version = "1", features = ["rt"] }
