[package]
name = "termicode"
version = "0.1.0"
edition = "2021"
publish = false

[dependencies]
regex = "1"
unicode-segmentation = "1"
tui = "0.19"
crossterm = "0.25"
pico-args = "0.5"
clipboard = "0.5"
unicode-width = "0.1"
tokio = { version = "1", features = ["macros", "rt-multi-thread", "fs", "io-util"] }
reqwest = { version = "0.11", default-features = false, features = ["rustls-tls"] }
