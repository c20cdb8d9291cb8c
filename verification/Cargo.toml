[package]
name = "stickercord"
version = "0.1.0"
edition = "2021"
publish = false

[dependencies]
image = { version = "=0.22.5", default-features = false, features = ["png_codec"] }
rand = "=0.7.3"
parking_lot = "=0.9.0"
lazy_static = "=1.5.1"
libwebp-sys = "=0.14.4"
futures = "=0.1.31"
tokio-core = "=0.1.18"
reqwest = "=0.9.19"
telegram-bot = "=0.6.3"
serenity = { version = "=0.6.4", default-features = false, features = ["default_native_tls"] }
