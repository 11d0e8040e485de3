[package]
name = "avatar_core"
version = "0.1.0"
edition = "2021"
publish = false

[dependencies]
flate2 = "1"
image = "0.24"
imageproc = "0.23"
webp = "0.2"
rsmpeg = "*"
rlottie = "0.5"
opencv = "*"
tempfile = "3"
grammers-client = "*"
grammers-session = "*"
grammers-tl-types = "*"
tokio = { version = "1", features = ["macros", "rt-multi-thread", "sync", "time", "signal"] }
reqwest = { version = "0.12", default-features = false }
webpage = "2"
lazy_static = "1"
