[package]
name = "ulang"
version = "0.1.0"
edition = "2021"
publish = false

[dependencies]
json = "0.12"
iced = { version = "0.13", default-features = false }
iced_aw = { version = "0.11", default-features = false, features = ["menu", "grid"] }
rand = "0.8"
rfd = { version = "0.15", default-features = false, features = ["xdg-portal", "async-std"] }
async-std = "1"
