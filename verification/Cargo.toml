[package]
name = "pomorust"
version = "0.1.0"
edition = "2021"
publish = false

[dependencies]
chrono = "0.4"
uuid = { version = "1", features = ["v4"] }
argparse = "0.2"
rust-ini = "*"
notify-rust = "4"
rodio = "*"
xdg = "2"
