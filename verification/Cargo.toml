[package]
name = "patme"
version = "0.2.1"
edition = "2021"
publish = false

[dependencies]
rosc = "=0.11.4"
tokio = { version = "=1.54.1", features = ["full"] }
clap = { version = "=4.6.7", features = ["derive", "env"] }
mdns-sd = "=0.13.11"
bluest = "=0.6.9"
futures-lite = "=2.6.1"
log = "=0.4.35"
env_logger = "=0.11.11"
iced = { version = "=0.14.0", default-features = false, features = ["tiny-skia", "x11", "tokio"] }
