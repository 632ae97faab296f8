[package]
name = "veloren_core"
version = "0.1.0"
edition = "2021"
publish = false

[dependencies]
tokio = { version = "1", features = ["rt-multi-thread", "net", "io-util", "sync", "time", "macros"] }
socket2 = "0.5"
image = { version = "0.25", default-features = false, features = ["png"] }
dot_vox = "5"
