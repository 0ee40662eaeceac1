[package]
name = "ddc-backlight"
version = "0.1.0"
edition = "2021"
publish = false

[dependencies]
clap = { version = "=4.6.7", features = ["derive"] }
ddc = "=0.2.2"
ddc-i2c = { version = "=0.2.2", features = ["with-linux"] }
eyre = "=0.6.14"
