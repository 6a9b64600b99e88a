[package]
name = "cosmic_toys"
version = "0.1.0"
edition = "2021"
publish = false

[dependencies]
regex = "1"
tokio = { version = "1", features = ["rt-multi-thread", "net", "io-util", "signal", "sync", "macros", "time"] }
image = { version = "0.25", default-features = false, features = ["png"] }
smithay-client-toolkit = "*"
wayland-client = "0.31"
