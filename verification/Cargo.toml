[package]
name = "rustmaniax_sdk"
version = "0.1.0"
edition = "2021"
publish = false

[dependencies]
bitflags = "2"
crossterm = "0.28"
ctrlc = "3"
env_logger = "0.11"
hidapi = { version = "2.6", default-features = false, features = ["linux-native-basic-udev"] }
image = { version = "0.25", default-features = false, features = ["gif"] }
log = "0.4"
