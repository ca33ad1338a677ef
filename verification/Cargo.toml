[package]
name = "i3tracker"
version = "0.1.0"
edition = "2021"
publish = false

[dependencies]
chrono = "*"
fs2 = "*"
futures = "*"
tokio = { version = "*", features = ["rt", "macros", "signal", "time", "fs"] }
tokio-i3ipc = "*"
xdg = "*"
