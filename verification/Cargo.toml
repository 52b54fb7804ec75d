[package]
name = "sms_irc"
version = "0.1.0"
edition = "2021"
publish = false

[dependencies]
huawei-modem = "*"
serde = { version = "*", features = ["derive"] }
toml = "*"
