[package]
name = "stock"
version = "0.1.0"
edition = "2021"
publish = false

[dependencies]
serde_json = "1"
chrono = "*"
dirs-next = "*"
http_req = { version = "*", default-features = false }
tui = "*"
unicode-width = "*"
