[package]
name = "raspi_observer"
version = "0.1.0"
edition = "2021"
publish = false

[dependencies]
bollard = "0.19"
chrono = { version = "0.4", default-features = false, features = ["clock"] }
futures-util = "0.3"
lazy_static = "1"
libc = "0.2"
prometheus = { version = "0.14", features = ["process"] }
rocket = { version = "0.5", features = ["json"] }
